use rawrr::config::{Config, EnvVars};
use rawrr::cycle::{start_poll, Action, Event, Poll, PollCycle, Stage};
use rawrr::docker::Container;
use rawrr::name_map::NameMap;
use rawrr::notifier::NotificationAction;
use rawrr::policy::ContainerPolicy;
use rawrr::rate_limiter::RateLimiter;
use rawrr::state::RawrrState;
use rawrr::time::Timestamp;

fn config() -> Config {
    Config::from_vars(&EnvVars::default()).unwrap()
}

fn hour(hours: i64) -> Timestamp {
    Timestamp::from_parts(1_700_000_000 + hours * 3600, 0).unwrap()
}

fn container(name: &str, image_id: &str, pairs: &[(&str, &str)]) -> Container {
    let mut labels = NameMap::new();
    for (label, value) in pairs {
        labels.insert(label.to_string(), value.to_string());
    }
    Container {
        id: format!("id-{}", name),
        names: vec![format!("/{}", name)],
        image: format!("{}:latest", name),
        image_id: image_id.to_string(),
        labels,
    }
}

fn begin(
    config: &Config,
    containers: Vec<Container>,
    state: &mut RawrrState,
    limiter: &mut RateLimiter,
) -> (PollCycle, Action) {
    match start_poll(config, containers, state, limiter, hour(0)) {
        Poll::Cycle(cycle, action) => (cycle, action),
        other => panic!("{:?}", other),
    }
}

fn digest(text: &str) -> Event {
    Event::Digest(text.to_string())
}

/// Runs a cycle. Every image has the digest `sha256:<image>` in the registry
/// and none locally, and everything succeeds but the actions that hold one of
/// the words in `failing`. Gives the actions in short form.
fn run(
    config: &Config,
    state: &mut RawrrState,
    containers: Vec<Container>,
    failing: &[&str],
    now: Timestamp,
) -> Vec<String> {
    let mut limiter = RateLimiter::new(100, 3600);
    let (mut cycle, mut action) = begin(config, containers, state, &mut limiter);
    let mut log: Vec<String> = Vec::new();
    loop {
        let (line, success) = match &action {
            Action::FetchDigest { service_name, image } => {
                (format!("fetch {} {}", service_name, image), digest(&format!("sha256:{}", image)))
            }
            Action::FetchLocalDigest { image_id, .. } => {
                (format!("local {}", image_id), Event::LocalDigest(None))
            }
            Action::SaveState => ("save".to_string(), Event::Done),
            Action::Notify { notification } => (
                format!(
                    "notify {} {:?} {}->{}",
                    notification.service_name,
                    notification.action,
                    notification.old_digest,
                    notification.new_digest
                ),
                Event::Done,
            ),
            Action::Inspect { container_id, .. } => {
                (format!("inspect {}", container_id), Event::Done)
            }
            Action::Pull { image, .. } => (format!("pull {}", image), Event::Done),
            Action::Stop { service_name, container_id } => {
                (format!("stop {} {}", service_name, container_id), Event::Done)
            }
            Action::Start { container_id, .. } => (format!("start {}", container_id), Event::Done),
            Action::Finish => return log,
        };
        let event = if failing.iter().any(|word| line.contains(word)) {
            Event::Failed
        } else {
            success
        };
        log.push(line);
        action = cycle.resume(config, state, &mut limiter, event, now);
    }
}

fn watched() -> Vec<Container> {
    vec![
        container("web", "img1", &[("rawrr.policy", "update"), ("rawrr.depends_on", "db")]),
        container("skip", "img2", &[("rawrr.policy", "ignore")]),
        container("db", "", &[("rawrr.policy", "Update")]),
        container("none", "img3", &[]),
        container("told", "", &[("rawrr.policy", "notify")]),
    ]
}

#[test]
fn first_polls_only_take_note() {
    let mut state = RawrrState::new();
    assert_eq!(
        run(&config(), &mut state, watched(), &[], hour(0)),
        vec!["fetch web web:latest", "fetch db db:latest", "fetch told told:latest", "save"]
    );
    assert_eq!(state.services.len(), 3);
    let image = state.services.get("web").unwrap().image.clone().unwrap();
    assert_eq!(image.digest, "sha256:web:latest");
    assert_eq!(image.first_seen, hour(0));
}

#[test]
fn upgrades_are_carried_out_when_the_delay_has_passed() {
    let config = config();
    let mut state = RawrrState::new();
    run(&config, &mut state, watched(), &[], hour(0));
    assert_eq!(run(&config, &mut state, watched(), &[], hour(5)).last().unwrap(), "save");
    assert_eq!(
        run(&config, &mut state, watched(), &[], hour(6)),
        vec![
            "fetch web web:latest",
            "local img1",
            "fetch db db:latest",
            "fetch told told:latest",
            "save",
            "notify web Update sha256:web:latest->sha256:web:latest",
            "notify db Update sha256:db:latest->sha256:db:latest",
            "notify told NotifyOnly sha256:told:latest->sha256:told:latest",
            "inspect id-web",
            "inspect id-db",
            "pull web:latest",
            "pull db:latest",
            "stop web id-web",
            "stop db id-db",
            "start id-db",
            "start id-web",
            "save",
        ]
    );
    // Everything has been dealt with, however much time passes.
    assert_eq!(run(&config, &mut state, watched(), &[], hour(100)).len(), 4);
    assert_eq!(run(&config, &mut state, watched(), &[], hour(7)).len(), 4);
    for name in ["web", "db", "told"] {
        let image = state.services.get(name).unwrap().image.clone().unwrap();
        assert_eq!(image.first_seen, hour(6));
        assert_eq!(image.last_checked, hour(7));
    }
}

#[test]
fn failures_do_not_stop_the_rest() {
    let config = config();
    let mut state = RawrrState::new();
    run(&config, &mut state, watched(), &[], hour(0));
    assert_eq!(
        run(
            &config,
            &mut state,
            watched(),
            &["fetch told", "local", "notify", "inspect id-db", "pull", "stop", "save"],
            hour(6)
        ),
        vec![
            "fetch web web:latest",
            "local img1",
            "fetch db db:latest",
            "fetch told told:latest",
            "save",
            "notify web Update sha256:web:latest->sha256:web:latest",
            "notify db Update sha256:db:latest->sha256:db:latest",
            "inspect id-web",
            "inspect id-db",
            "pull web:latest",
            "pull db:latest",
            "stop web id-web",
            "stop db id-db",
            "start id-web",
            "save",
        ]
    );
    let first_seen =
        |name: &str| state.services.get(name).unwrap().image.clone().unwrap().first_seen;
    assert_eq!(first_seen("web"), hour(6));
    assert_eq!(first_seen("db"), hour(0));
    assert_eq!(first_seen("told"), hour(0));
}

#[test]
fn announcements_that_fail_are_repeated() {
    let config = config();
    let told = || vec![container("told", "", &[("rawrr.policy", "notify")])];
    let mut state = RawrrState::new();
    run(&config, &mut state, told(), &[], hour(0));
    let announced = run(&config, &mut state, told(), &["notify"], hour(6));
    assert_eq!(announced.len(), 4);
    assert_eq!(run(&config, &mut state, told(), &[], hour(7)), announced);
    assert_eq!(run(&config, &mut state, told(), &[], hour(8)), vec!["fetch told told:latest", "save"]);
}

#[test]
fn containers_that_run_the_new_image_are_left_alone() {
    let config = config();
    let web = || vec![container("web", "img1", &[("rawrr.policy", "update")])];
    let mut state = RawrrState::new();
    run(&config, &mut state, web(), &[], hour(0));
    let mut limiter = RateLimiter::new(100, 3600);
    let (mut cycle, _) = begin(&config, web(), &mut state, &mut limiter);
    let action = cycle.resume(&config, &mut state, &mut limiter, digest("sha256:web:latest"), hour(9));
    assert!(matches!(action, Action::FetchLocalDigest { .. }));
    let local = Event::LocalDigest(Some("sha256:web:latest".to_string()));
    assert!(matches!(cycle.resume(&config, &mut state, &mut limiter, local, hour(9)), Action::SaveState));
    assert!(cycle.pending.is_empty());
    assert!(matches!(cycle.stage, Stage::Scanned));
    assert!(matches!(cycle.resume(&config, &mut state, &mut limiter, Event::Done, hour(9)), Action::Finish));
    assert!(matches!(cycle.resume(&config, &mut state, &mut limiter, Event::Done, hour(9)), Action::Finish));
}

#[test]
fn upgrades_say_what_they_are() {
    let mut config = config();
    config.release_delay_hours = 0;
    let labels = [
        ("rawrr.policy", "update"),
        ("com.docker.compose.project", "shop"),
        ("com.docker.compose.depends_on", "db:service_started:false"),
    ];
    let mut state = RawrrState::new();
    state.update_service_image_at("web".to_string(), "sha256:old".to_string(), hour(0));
    let mut limiter = RateLimiter::new(100, 3600);
    let (mut cycle, action) =
        begin(&config, vec![container("web", "img1", &labels)], &mut state, &mut limiter);
    assert!(matches!(action, Action::FetchDigest { .. }));
    let action = cycle.resume(&config, &mut state, &mut limiter, digest("sha256:new"), hour(1));
    assert!(matches!(action, Action::FetchLocalDigest { .. }));
    let local = Event::LocalDigest(Some("sha256:old".to_string()));
    assert!(matches!(cycle.resume(&config, &mut state, &mut limiter, local, hour(1)), Action::SaveState));
    let upgrade = &cycle.pending[0];
    assert_eq!(upgrade.service_name, "web");
    assert_eq!(upgrade.container_id, "id-web");
    assert_eq!(upgrade.image, "web:latest");
    assert_eq!(upgrade.old_digest, "sha256:old");
    assert_eq!(upgrade.new_digest, "sha256:new");
    assert_eq!(upgrade.policy, ContainerPolicy::Update);
    assert_eq!(upgrade.compose_project, Some("shop".to_string()));
    assert_eq!(upgrade.depends_on, vec!["db"]);
    match cycle.resume(&config, &mut state, &mut limiter, Event::Done, hour(1)) {
        Action::Notify { notification } => {
            assert_eq!(notification.action, NotificationAction::Update);
        }
        other => panic!("{:?}", other),
    }
}

#[test]
fn outcomes_of_another_kind_count_as_failures() {
    let mut config = config();
    config.release_delay_hours = 0;
    let mut state = RawrrState::new();
    let two = vec![
        container("a", "", &[("rawrr.policy", "notify")]),
        container("b", "", &[("rawrr.policy", "notify")]),
    ];
    let mut limiter = RateLimiter::new(100, 3600);
    let (mut cycle, _) = begin(&config, two, &mut state, &mut limiter);
    match cycle.resume(&config, &mut state, &mut limiter, Event::Done, hour(0)) {
        Action::FetchDigest { service_name, .. } => assert_eq!(service_name, "b"),
        other => panic!("{:?}", other),
    }
    assert!(state.services.is_empty());
}

#[test]
fn without_watched_containers_the_state_is_written_all_the_same() {
    let mut state = RawrrState::new();
    assert_eq!(run(&config(), &mut state, vec![], &[], hour(0)), vec!["save"]);
}

#[test]
fn dry_runs_do_nothing_but_report() {
    let mut config = config();
    config.dry_run = true;
    let mut state = RawrrState::new();
    let mut limiter = RateLimiter::new(1, 3600);
    match start_poll(&config, watched(), &mut state, &mut limiter, hour(0)) {
        Poll::DryRun(lines) => {
            let resolved: Vec<&str> = lines.iter().map(|l| l.resolved.as_str()).collect();
            assert_eq!(
                resolved,
                vec!["update", "ignore", "update", "(skipped — no recognised policy)", "notify"]
            );
        }
        other => panic!("{:?}", other),
    }
    assert_eq!(state.last_poll_time, hour(0));
    assert!(state.services.is_empty());
    // No registry is asked, so nothing counts against the limit.
    assert!(limiter.can_poll_at(hour(0)));
}

#[test]
fn polls_start_with_the_first_watched_container() {
    let mut state = RawrrState::new();
    let mut limiter = RateLimiter::new(1, 3600);
    match start_poll(&config(), watched(), &mut state, &mut limiter, hour(0)) {
        Poll::Cycle(cycle, Action::FetchDigest { service_name, image }) => {
            assert_eq!(service_name, "web");
            assert_eq!(image, "web:latest");
            assert_eq!(cycle.containers.len(), 5);
        }
        other => panic!("{:?}", other),
    }
}

#[test]
fn each_question_to_a_registry_counts() {
    let config = config();
    let mut state = RawrrState::new();
    let mut limiter = RateLimiter::new(3, 3600);
    let (mut cycle, mut action) = begin(&config, watched(), &mut state, &mut limiter);
    let mut asked = 0;
    while !matches!(action, Action::Finish) {
        if matches!(action, Action::FetchDigest { .. }) {
            asked += 1;
        }
        assert_eq!(limiter.can_poll_at(hour(0)), asked < 3);
        action = cycle.resume(&config, &mut state, &mut limiter, Event::Failed, hour(0));
    }
    assert_eq!(asked, 3);
}

#[test]
fn announced_updates_stay_announced_after_a_restart() {
    let config = config();
    let told = || vec![container("told", "", &[("rawrr.notify", "true")])];
    let mut state = RawrrState::new();
    run(&config, &mut state, told(), &[], hour(0));
    assert_eq!(run(&config, &mut state, told(), &[], hour(6)).len(), 4);
    let mut state = RawrrState::restore(&Some(state.to_saved())).unwrap();
    for hours in [7, 12, 13, 100] {
        assert_eq!(
            run(&config, &mut state, told(), &[], hour(hours)),
            vec!["fetch told told:latest", "save"]
        );
    }
}

#[test]
fn a_poll_that_has_begun_asks_about_all_its_containers() {
    let config = config();
    let mut state = RawrrState::new();
    let mut limiter = RateLimiter::new(1, 60);
    assert!(limiter.can_poll_at(hour(0)));
    let (mut cycle, mut action) = begin(&config, watched(), &mut state, &mut limiter);
    let mut asked = Vec::new();
    while !matches!(action, Action::Finish) {
        if let Action::FetchDigest { service_name, .. } = &action {
            asked.push(service_name.clone());
        }
        action = cycle.resume(&config, &mut state, &mut limiter, Event::Failed, hour(0));
    }
    assert_eq!(asked, vec!["web", "db", "told"]);
    // Three questions in one window: fewer than one and three together.
    assert!(!limiter.can_poll_at(hour(0)));
    assert!(limiter.can_poll_at(hour(1)));
}

#[test]
fn nothing_is_taken_up_within_the_delay() {
    let config = config();
    let twins = || {
        let mut other = container("told", "", &[("rawrr.policy", "notify")]);
        other.image = "other:latest".to_string();
        vec![container("told", "", &[("rawrr.policy", "notify")]), other]
    };
    let mut state = RawrrState::new();
    run(&config, &mut state, vec![container("told", "", &[("rawrr.policy", "notify")])], &[], hour(0));
    let announced = run(&config, &mut state, twins(), &[], hour(6));
    assert!(announced.iter().any(|line| line.starts_with("notify told")));
    for hours in [7, 9, 11] {
        assert_eq!(
            run(&config, &mut state, twins(), &[], hour(hours)),
            vec!["fetch told told:latest", "fetch told other:latest", "save"]
        );
    }
}
