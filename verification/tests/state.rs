use rawrr::state::RawrrState;
use rawrr::time::{Duration, Timestamp};

#[test]
fn test_new_state_is_empty() {
    let state = RawrrState::new();
    assert!(state.services.is_empty());
    assert_eq!(state.last_poll_time, Timestamp::unix_epoch());
}

#[test]
fn test_update_new_image_sets_first_seen() {
    let mut state = RawrrState::new();
    let before = Timestamp::now();
    state.update_service_image("svc".to_string(), "sha256:abc".to_string());
    let after = Timestamp::now();

    let img = state.services.get("svc").unwrap().image.as_ref().unwrap();
    assert_eq!(img.digest, "sha256:abc");
    assert!(img.first_seen >= before && img.first_seen <= after);
}

#[test]
fn test_update_same_image_preserves_first_seen() {
    let mut state = RawrrState::new();
    state.update_service_image("svc".to_string(), "sha256:abc".to_string());

    let past = Timestamp::unix_epoch();
    state.services.get_mut("svc").unwrap().image.as_mut().unwrap().first_seen = past;

    state.update_service_image("svc".to_string(), "sha256:abc".to_string());

    let img = state.services.get("svc").unwrap().image.as_ref().unwrap();
    assert_eq!(img.first_seen, past);
}

#[test]
fn test_update_different_image_resets_first_seen() {
    let mut state = RawrrState::new();
    state.update_service_image("svc".to_string(), "sha256:aaa".to_string());

    let past = Timestamp::unix_epoch();
    state.services.get_mut("svc").unwrap().image.as_mut().unwrap().first_seen = past;

    state.update_service_image("svc".to_string(), "sha256:bbb".to_string());

    let img = state.services.get("svc").unwrap().image.as_ref().unwrap();
    assert_ne!(img.first_seen, past);
    assert_eq!(img.digest, "sha256:bbb");
}

#[test]
fn test_should_upgrade_unknown_service() {
    let state = RawrrState::new();
    assert!(!state.should_upgrade("no_such", "sha256:abc", Duration::zero()));
}

#[test]
fn test_should_upgrade_no_image() {
    let mut state = RawrrState::new();
    state.get_or_create_service("svc".to_string());
    assert!(!state.should_upgrade("svc", "sha256:abc", Duration::zero()));
}

#[test]
fn test_should_upgrade_wrong_digest() {
    let mut state = RawrrState::new();
    state.update_service_image("svc".to_string(), "sha256:aaa".to_string());
    assert!(!state.should_upgrade("svc", "sha256:different", Duration::zero()));
}

#[test]
fn test_should_upgrade_delay_not_elapsed() {
    let mut state = RawrrState::new();
    state.update_service_image("svc".to_string(), "sha256:abc".to_string());
    // first_seen = now, so a 1-hour delay has not elapsed
    assert!(!state.should_upgrade("svc", "sha256:abc", Duration::hours(1)));
}

#[test]
fn test_should_upgrade_delay_elapsed() {
    let mut state = RawrrState::new();
    state.update_service_image("svc".to_string(), "sha256:abc".to_string());
    // first_seen to UNIX epoch so any positive delay has long elapsed
    state.services.get_mut("svc").unwrap().image.as_mut().unwrap().first_seen =
        Timestamp::unix_epoch();
    assert!(state.should_upgrade("svc", "sha256:abc", Duration::hours(6)));
}

#[test]
fn test_mark_upgraded_resets_first_seen() {
    let mut state = RawrrState::new();
    state.update_service_image("svc".to_string(), "sha256:abc".to_string());
    state.services.get_mut("svc").unwrap().image.as_mut().unwrap().first_seen =
        Timestamp::unix_epoch();

    let before = Timestamp::now();
    state.mark_upgraded("svc");
    let after = Timestamp::now();

    let first_seen = state.services.get("svc").unwrap().image.as_ref().unwrap().first_seen;
    assert!(first_seen >= before && first_seen <= after);
}

#[test]
fn test_mark_upgraded_nonexistent_is_noop() {
    let mut state = RawrrState::new();
    state.mark_upgraded("no_such_service"); // must not panic
}

// Notify containers were announced again at every poll once the release delay
// had elapsed, because nothing was marked after sending the notification.
#[test]
fn test_mark_upgraded_suppresses_renotify() {
    let mut state = RawrrState::new();
    state.update_service_image("plex".to_string(), "sha256:abc123".to_string());
    state.services.get_mut("plex").unwrap().image.as_mut().unwrap().first_seen =
        Timestamp::unix_epoch();

    assert!(
        state.should_upgrade("plex", "sha256:abc123", Duration::hours(6)),
        "precondition: should_upgrade must be true before notification"
    );

    state.mark_upgraded("plex");

    assert!(
        !state.should_upgrade("plex", "sha256:abc123", Duration::hours(6)),
        "should not re-notify on the next poll after mark_upgraded resets first_seen"
    );
}

fn at(hours: i64) -> Timestamp {
    Timestamp::from_parts(hours * 3600, 0).unwrap()
}

#[test]
fn timeline() {
    let delay = Duration::hours(6);
    let mut state = RawrrState::new();
    state.update_service_image_at("nginx".to_string(), "sha256:abc123".to_string(), at(10));
    assert!(!state.should_upgrade_at("nginx", "sha256:abc123", delay, at(10)));
    state.update_service_image_at("nginx".to_string(), "sha256:abc123".to_string(), at(11));
    assert!(!state.should_upgrade_at("nginx", "sha256:abc123", delay, at(11)));
    state.update_service_image_at("nginx".to_string(), "sha256:abc123".to_string(), at(16));
    assert!(state.should_upgrade_at("nginx", "sha256:abc123", delay, at(16)));
    assert_eq!(
        state.services.get("nginx").unwrap().image.as_ref().unwrap().last_checked,
        at(16)
    );
    state.mark_upgraded_at("nginx", at(16));
    assert!(!state.should_upgrade_at("nginx", "sha256:abc123", delay, at(17)));
    assert!(!state.should_upgrade_at("nginx", "sha256:abc123", delay, at(23)));
    state.update_service_image_at("nginx".to_string(), "sha256:def456".to_string(), at(17));
    assert!(!state.should_upgrade_at("nginx", "sha256:def456", delay, at(22)));
    assert!(state.should_upgrade_at("nginx", "sha256:def456", delay, at(23)));
}

#[test]
fn images_that_were_dealt_with_are_due_no_more() {
    let delay = Duration::hours(6);
    let mut state = RawrrState::new();
    state.update_service_image_at("web".to_string(), "sha256:a".to_string(), at(0));
    state.mark_upgraded_at("web", at(6));
    for hours in [7, 12, 13, 1000] {
        state.update_service_image_at("web".to_string(), "sha256:a".to_string(), at(hours));
        assert!(!state.should_upgrade_at("web", "sha256:a", delay, at(hours)));
        assert!(!state.should_upgrade_at("web", "sha256:a", Duration::zero(), at(hours)));
    }
    // The next new digest counts afresh, and so does the old one after it.
    state.update_service_image_at("web".to_string(), "sha256:b".to_string(), at(1001));
    assert!(!state.should_upgrade_at("web", "sha256:b", delay, at(1006)));
    assert!(state.should_upgrade_at("web", "sha256:b", delay, at(1007)));
    state.update_service_image_at("web".to_string(), "sha256:a".to_string(), at(1008));
    assert!(state.should_upgrade_at("web", "sha256:a", delay, at(1014)));
}

#[test]
fn services_do_not_disturb_each_other() {
    let mut state = RawrrState::new();
    state.update_service_image_at("a".to_string(), "d".to_string(), at(1));
    state.update_service_image_at("b".to_string(), "d".to_string(), at(2));
    state.mark_upgraded_at("b", at(3));
    let a = state.services.get("a").unwrap();
    assert_eq!(a.name, "a");
    assert_eq!(a.image.as_ref().unwrap().first_seen, at(1));
    assert_eq!(state.services.get("b").unwrap().image.as_ref().unwrap().first_seen, at(3));
    assert_eq!(state.services.len(), 2);
}

#[test]
fn the_clock_is_that_of_chrono() {
    let before = chrono::Utc::now();
    let (secs, nanos) = Timestamp::now().parts();
    let after = chrono::Utc::now();
    assert!(before.timestamp() <= secs && secs <= after.timestamp());
    assert!(nanos < 1_000_000_000);
    assert!(secs > 1_500_000_000);
}

#[test]
fn timestamps_have_the_range_of_chrono() {
    let first = chrono::DateTime::<chrono::Utc>::MIN_UTC.timestamp();
    let last = chrono::DateTime::<chrono::Utc>::MAX_UTC.timestamp();
    assert_eq!(first, rawrr::time::MIN_SECS);
    assert_eq!(last, rawrr::time::MAX_SECS);
    assert!(Timestamp::from_parts(first, 0).is_some());
    assert!(Timestamp::from_parts(last, 999_999_999).is_some());
    assert!(Timestamp::from_parts(first - 1, 0).is_none());
    assert!(Timestamp::from_parts(last + 1, 0).is_none());
    assert!(Timestamp::from_parts(0, 1_000_000_000).is_none());
}
