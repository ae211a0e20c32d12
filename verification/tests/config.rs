use rawrr::config::{
    parse_registry_credentials, Config, ConfigError, EnvVars, MissingSetting, NotifierConfig,
};
use rawrr::time::Duration;

#[test]
fn test_parse_credentials_empty() {
    assert!(parse_registry_credentials("").is_empty());
}

#[test]
fn test_parse_credentials_single() {
    let creds = parse_registry_credentials("docker.io=user:token");
    assert_eq!(creds.get("docker.io"), Some(&("user".to_string(), "token".to_string())));
}

#[test]
fn test_parse_credentials_multiple() {
    let creds = parse_registry_credentials("docker.io=user:tok1,ghcr.io=alice:ghp_abc");
    assert_eq!(creds.get("docker.io"), Some(&("user".to_string(), "tok1".to_string())));
    assert_eq!(creds.get("ghcr.io"), Some(&("alice".to_string(), "ghp_abc".to_string())));
    assert_eq!(creds.len(), 2);
}

#[test]
fn test_parse_credentials_password_with_colon() {
    // Only the first ':' is the username/password separator
    let creds = parse_registry_credentials("docker.io=user:pass:word");
    assert_eq!(creds.get("docker.io"), Some(&("user".to_string(), "pass:word".to_string())));
}

#[test]
fn test_parse_credentials_missing_equals() {
    assert!(parse_registry_credentials("docker.io").is_empty());
}

#[test]
fn test_parse_credentials_missing_colon() {
    assert!(parse_registry_credentials("docker.io=useronly").is_empty());
}

#[test]
fn test_get_release_delay() {
    let config = Config {
        state_file: "/tmp/state.json".into(),
        startup_delay_secs: 0,
        poll_interval_secs: 3600,
        release_delay_hours: 6,
        docker_host: String::new(),
        label_policy: String::new(),
        label_ignore: String::new(),
        label_notify: String::new(),
        label_update: String::new(),
        notifier: NotifierConfig::Disabled,
        rate_limit_check_interval_secs: 60,
        rate_limit_max_polls: 100,
        rate_limit_window_secs: 3600,
        registry_credentials: Default::default(),
        dry_run: false,
    };
    assert_eq!(config.get_release_delay(), Duration::hours(6));
}

#[test]
fn credentials_are_trimmed_and_the_last_one_counts() {
    let creds = parse_registry_credentials(" docker.io=a:b ,,junk,\tdocker.io=c:d=e\n,x=y:");
    assert_eq!(creds.get("docker.io"), Some(&("c".to_string(), "d=e".to_string())));
    assert_eq!(creds.get("x"), Some(&(String::new() + "y", String::new())));
    assert_eq!(creds.len(), 2);
}

#[test]
fn joined_credential_lists_give_what_both_give() {
    let both = parse_registry_credentials("a=1:2,b=3:4,b=5:6");
    assert_eq!(both.get("a"), Some(&("1".to_string(), "2".to_string())));
    assert_eq!(both.get("b"), Some(&("5".to_string(), "6".to_string())));
}

#[test]
fn defaults_without_any_variable() {
    let config = Config::from_vars(&EnvVars::default()).unwrap();
    assert_eq!(config.state_file, "/var/lib/rawrr/state.json");
    assert_eq!(config.startup_delay_secs, 30);
    assert_eq!(config.poll_interval_secs, 3600);
    assert_eq!(config.release_delay_hours, 6);
    assert_eq!(config.docker_host, "unix:///var/run/docker.sock");
    assert_eq!(config.label_policy, "rawrr.policy");
    assert_eq!(config.label_ignore, "rawrr.ignore");
    assert_eq!(config.label_notify, "rawrr.notify");
    assert_eq!(config.label_update, "rawrr.update");
    assert!(matches!(config.notifier, NotifierConfig::Disabled));
    assert_eq!(config.rate_limit_check_interval_secs, 60);
    assert_eq!(config.rate_limit_max_polls, 100);
    assert_eq!(config.rate_limit_window_secs, 3600);
    assert!(config.registry_credentials.is_empty());
    assert!(!config.dry_run);
}

fn text(s: &str) -> Option<String> {
    Some(s.to_string())
}

#[test]
fn every_variable_is_used() {
    let vars = EnvVars {
        state_file: text("/s"),
        startup_delay_secs: text("+1"),
        poll_interval_secs: text("2"),
        release_delay_hours: text("-3"),
        docker_host: text("tcp://h"),
        label_policy: text("l"),
        label_ignore: text("i"),
        label_notify: text("n"),
        label_update: text("u"),
        notifier: text("gotify"),
        gotify_url: text("http://g"),
        gotify_token: text("t"),
        rate_limit_check_interval_secs: text("4"),
        rate_limit_max_polls: text("5"),
        rate_limit_window_secs: text("18446744073709551615"),
        registry_credentials: text("r=u:p"),
        dry_run: text("yes"),
        ..EnvVars::default()
    };
    let config = Config::from_vars(&vars).unwrap();
    assert_eq!(config.state_file, "/s");
    assert_eq!(config.startup_delay_secs, 1);
    assert_eq!(config.poll_interval_secs, 2);
    assert_eq!(config.release_delay_hours, -3);
    assert_eq!(config.docker_host, "tcp://h");
    assert_eq!(config.label_policy, "l");
    assert_eq!(config.label_ignore, "i");
    assert_eq!(config.label_notify, "n");
    assert_eq!(config.label_update, "u");
    match config.notifier {
        NotifierConfig::Gotify { url, token } => {
            assert_eq!(url, "http://g");
            assert_eq!(token, "t");
        }
        _ => panic!("not gotify"),
    }
    assert_eq!(config.rate_limit_check_interval_secs, 4);
    assert_eq!(config.rate_limit_max_polls, 5);
    assert_eq!(config.rate_limit_window_secs, u64::MAX);
    assert!(config.registry_credentials.get("r").is_some());
    assert!(config.dry_run);
}

#[test]
fn ntfy_has_a_default_server() {
    let vars = EnvVars { notifier: text("ntfy"), ntfy_topic: text("updates"), ..EnvVars::default() };
    match Config::from_vars(&vars).unwrap().notifier {
        NotifierConfig::Ntfy { url, topic } => {
            assert_eq!(url, "https://ntfy.sh");
            assert_eq!(topic, "updates");
        }
        _ => panic!("not ntfy"),
    }
}

#[test]
fn unknown_notifier_is_none() {
    let vars = EnvVars { notifier: text("Gotify"), ..EnvVars::default() };
    assert!(matches!(Config::from_vars(&vars).unwrap().notifier, NotifierConfig::Disabled));
    let vars = EnvVars { notifier: text(""), ..EnvVars::default() };
    assert!(matches!(Config::from_vars(&vars).unwrap().notifier, NotifierConfig::Disabled));
}

#[test]
fn each_number_has_its_error() {
    let base = EnvVars::default();
    let bad = text("x");
    let cases = vec![
        (EnvVars { startup_delay_secs: bad.clone(), ..base.clone() }, ConfigError::StartupDelay),
        (EnvVars { poll_interval_secs: bad.clone(), ..base.clone() }, ConfigError::PollInterval),
        (EnvVars { release_delay_hours: bad.clone(), ..base.clone() }, ConfigError::ReleaseDelay),
        (
            EnvVars { rate_limit_check_interval_secs: bad.clone(), ..base.clone() },
            ConfigError::RateLimitCheckInterval,
        ),
        (EnvVars { rate_limit_max_polls: text("4294967296"), ..base.clone() }, ConfigError::RateLimitMaxPolls),
        (EnvVars { rate_limit_window_secs: text("-1"), ..base.clone() }, ConfigError::RateLimitWindow),
        (
            EnvVars { poll_interval_secs: bad.clone(), startup_delay_secs: text(""), ..base.clone() },
            ConfigError::StartupDelay,
        ),
    ];
    for (vars, error) in cases {
        assert_eq!(Config::from_vars(&vars).unwrap_err(), error);
    }
}

#[test]
fn missing_settings_are_found() {
    let base = EnvVars::default();
    assert_eq!(base.missing_setting(), None);
    let gotify = EnvVars { notifier: text("gotify"), ..base.clone() };
    assert_eq!(gotify.missing_setting(), Some(MissingSetting::GotifyUrl));
    let with_url = EnvVars { gotify_url: text("u"), ..gotify.clone() };
    assert_eq!(with_url.missing_setting(), Some(MissingSetting::GotifyToken));
    let ntfy = EnvVars { notifier: text("ntfy"), ..base.clone() };
    assert_eq!(ntfy.missing_setting(), Some(MissingSetting::NtfyTopic));
    // A general setting that is no number is reported before that.
    let early = EnvVars { release_delay_hours: text("six"), ..ntfy };
    assert_eq!(early.missing_setting(), None);
    assert_eq!(Config::from_vars(&early).unwrap_err(), ConfigError::ReleaseDelay);
}

#[test]
fn delays_out_of_range_are_found() {
    let mut config = Config::from_vars(&EnvVars::default()).unwrap();
    assert!(config.has_delay_in_range());
    config.release_delay_hours = 2_562_047_788_015;
    assert!(config.has_delay_in_range());
    assert_eq!(
        config.get_release_delay().as_nanos(),
        2_562_047_788_015 * 3600 * 1_000_000_000i128
    );
    config.release_delay_hours = 2_562_047_788_016;
    assert!(!config.has_delay_in_range());
    assert!(chrono::Duration::try_hours(2_562_047_788_015).is_some());
    assert!(chrono::Duration::try_hours(2_562_047_788_016).is_none());
    assert!(chrono::Duration::try_hours(-2_562_047_788_015).is_some());
    config.release_delay_hours = -2_562_047_788_015;
    assert!(config.has_delay_in_range());
}
