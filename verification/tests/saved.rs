use rawrr::saved::{SavedImage, SavedService, SavedState};
use rawrr::state::RawrrState;
use rawrr::time::{Duration, Timestamp};

fn at(hours: i64) -> Timestamp {
    Timestamp::from_parts(hours * 3600, 7).unwrap()
}

#[test]
fn test_save_and_load_roundtrip() {
    let mut state = RawrrState::new();
    state.update_service_image("myapp".to_string(), "sha256:deadbeef".to_string());
    let saved = state.to_saved();

    let loaded = RawrrState::restore(&Some(saved)).unwrap();
    let img = loaded.services.get("myapp").unwrap().image.as_ref().unwrap();
    assert_eq!(img.digest, "sha256:deadbeef");
}

#[test]
fn test_load_nonexistent_returns_empty() {
    let state = RawrrState::restore(&None).unwrap();
    assert!(state.services.is_empty());
}

// The time at which the release delay was started anew survives a restart.
#[test]
fn test_mark_upgraded_persists_across_save_load() {
    let mut state = RawrrState::new();
    state.update_service_image("plex".to_string(), "sha256:abc123".to_string());
    state.services.get_mut("plex").unwrap().image.as_mut().unwrap().first_seen =
        Timestamp::unix_epoch();

    state.mark_upgraded("plex");
    let saved = state.to_saved();

    let reloaded = RawrrState::restore(&Some(saved)).unwrap();
    assert!(
        !reloaded.should_upgrade("plex", "sha256:abc123", Duration::hours(6)),
        "should not re-notify after restart when state was saved post-notification"
    );
}

#[test]
fn written_states_read_back() {
    let mut state = RawrrState::new();
    state.last_poll_time = at(9);
    state.update_service_image_at("nginx".to_string(), "sha256:abc123".to_string(), at(1));
    state.update_service_image_at("nginx".to_string(), "sha256:abc123".to_string(), at(2));
    state.get_or_create_service("bare".to_string());
    let saved = state.to_saved();
    assert_eq!(saved.last_poll_time, (9 * 3600, 7));
    assert_eq!(saved.services.len(), 2);

    let restored = RawrrState::restore(&Some(saved)).unwrap();
    assert_eq!(restored.last_poll_time, at(9));
    assert_eq!(restored.services.len(), 2);
    let nginx = restored.services.get("nginx").unwrap();
    assert_eq!(nginx.name, "nginx");
    let image = nginx.image.clone().unwrap();
    assert_eq!(image.digest, "sha256:abc123");
    assert_eq!(image.first_seen, at(1));
    assert_eq!(image.last_checked, at(2));
    assert!(restored.services.get("bare").unwrap().image.is_none());
}

#[test]
fn dealt_with_upgrades_stay_dealt_with_after_a_restart() {
    let mut state = RawrrState::new();
    state.update_service_image_at("plex".to_string(), "sha256:abc123".to_string(), at(0));
    let due = |state: &RawrrState| {
        state.should_upgrade_at("plex", "sha256:abc123", Duration::hours(6), at(7))
    };
    assert!(due(&RawrrState::from_saved(&state.to_saved()).unwrap()));
    state.mark_upgraded_at("plex", at(0));
    let image = &state.to_saved().services[0].1.image;
    assert!(image.as_ref().unwrap().dealt_with);
    assert!(!due(&RawrrState::from_saved(&state.to_saved()).unwrap()));
}

#[test]
fn without_a_written_state_nothing_is_remembered() {
    let state = RawrrState::restore(&None).unwrap();
    assert_eq!(state.last_poll_time, Timestamp::unix_epoch());
    assert!(state.services.is_empty());
}

fn saved(nanos: u32) -> SavedState {
    SavedState {
        last_poll_time: (0, 0),
        services: vec![
            ("a".to_string(), SavedService { name: "first".to_string(), image: None }),
            (
                "a".to_string(),
                SavedService {
                    name: "second".to_string(),
                    image: Some(SavedImage {
                        digest: "d".to_string(),
                        first_seen: (5, 0),
                        last_checked: (5, nanos),
                        dealt_with: false,
                    }),
                },
            ),
        ],
    }
}

#[test]
fn of_two_entries_the_later_counts() {
    let state = RawrrState::from_saved(&saved(999_999_999)).unwrap();
    assert_eq!(state.services.len(), 1);
    assert_eq!(state.services.get("a").unwrap().name, "second");
}

#[test]
fn times_out_of_range_are_refused() {
    assert!(RawrrState::from_saved(&saved(1_000_000_000)).is_none());
    let mut late = saved(0);
    late.last_poll_time = (i64::MAX, 0);
    assert!(RawrrState::restore(&Some(late)).is_none());
}
