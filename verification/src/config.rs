//! The settings.

use crate::name_map::NameMap;
use crate::number::{in_range, parse_i64, parse_u32, parse_u64, signed_value, unsigned_value};
use crate::text::{
    lemma_first_of_is, lemma_split_join, lemma_split_whole, same_text, split, split_once, split_text,
    split_text_once, trim, trim_text, views,
};
use crate::time::{seconds_in_range, Duration, NANOS_PER_SEC};
use vstd::prelude::*;

verus! {

/// The settings.
#[derive(Debug, Clone)]
pub struct Config {
    /// Path of the file that keeps the state.
    pub state_file: String,
    /// Seconds to wait before the first poll.
    pub startup_delay_secs: u64,
    /// Seconds between polls.
    pub poll_interval_secs: u64,
    /// Hours that an image must be known before it is upgraded to.
    pub release_delay_hours: i64,
    /// Docker socket or remote endpoint.
    pub docker_host: String,
    /// Container label that controls the monitoring policy.
    pub label_policy: String,
    /// Container label that has a container left alone.
    pub label_ignore: String,
    /// Container label that has updates announced.
    pub label_notify: String,
    /// Container label that has updates applied.
    pub label_update: String,
    /// How updates are announced.
    pub notifier: NotifierConfig,
    /// Seconds between checks of the rate limit.
    pub rate_limit_check_interval_secs: u64,
    /// Polls allowed in the window of the rate limit.
    pub rate_limit_max_polls: u32,
    /// Length of the window of the rate limit in seconds.
    pub rate_limit_window_secs: u64,
    /// Registry credentials: host name to user name and password or token.
    pub registry_credentials: NameMap<(String, String)>,
    /// List the containers with the policy found for each, and ask no
    /// registry.
    pub dry_run: bool,
}

/// How updates are announced.
#[derive(Debug, Clone)]
pub enum NotifierConfig {
    Gotify { url: String, token: String },
    Ntfy { url: String, topic: String },
    Disabled,
}

/// The environment variables that hold settings, as far as they are set.
#[derive(Debug, Clone, Default)]
pub struct EnvVars {
    /// `RAWRR_STATE_FILE`
    pub state_file: Option<String>,
    /// `RAWRR_STARTUP_DELAY_SECS`
    pub startup_delay_secs: Option<String>,
    /// `RAWRR_POLL_INTERVAL_SECS`
    pub poll_interval_secs: Option<String>,
    /// `RAWRR_RELEASE_DELAY_HOURS`
    pub release_delay_hours: Option<String>,
    /// `DOCKER_HOST`
    pub docker_host: Option<String>,
    /// `RAWRR_LABEL_POLICY`
    pub label_policy: Option<String>,
    /// `RAWRR_LABEL_IGNORE`
    pub label_ignore: Option<String>,
    /// `RAWRR_LABEL_NOTIFY`
    pub label_notify: Option<String>,
    /// `RAWRR_LABEL_UPDATE`
    pub label_update: Option<String>,
    /// `RAWRR_NOTIFIER`
    pub notifier: Option<String>,
    /// `RAWRR_GOTIFY_URL`
    pub gotify_url: Option<String>,
    /// `RAWRR_GOTIFY_TOKEN`
    pub gotify_token: Option<String>,
    /// `RAWRR_NTFY_URL`
    pub ntfy_url: Option<String>,
    /// `RAWRR_NTFY_TOPIC`
    pub ntfy_topic: Option<String>,
    /// `RAWRR_RATE_LIMIT_CHECK_INTERVAL_SECS`
    pub rate_limit_check_interval_secs: Option<String>,
    /// `RAWRR_RATE_LIMIT_MAX_POLLS`
    pub rate_limit_max_polls: Option<String>,
    /// `RAWRR_RATE_LIMIT_WINDOW_SECS`
    pub rate_limit_window_secs: Option<String>,
    /// `RAWRR_REGISTRY_CREDENTIALS`
    pub registry_credentials: Option<String>,
    /// `RAWRR_DRY_RUN`
    pub dry_run: Option<String>,
}

/// A setting that is not a number of its kind.
#[derive(Debug, Clone, Copy, PartialEq, Eq, Structural)]
pub enum ConfigError {
    StartupDelay,
    PollInterval,
    ReleaseDelay,
    RateLimitCheckInterval,
    RateLimitMaxPolls,
    RateLimitWindow,
}

/// A setting that the chosen notifier cannot do without.
#[derive(Debug, Clone, Copy, PartialEq, Eq, Structural)]
pub enum MissingSetting {
    GotifyUrl,
    GotifyToken,
    NtfyTopic,
}

/// The text of a setting, or its default.
pub open spec fn text_or(value: Option<String>, default: Seq<char>) -> Seq<char> {
    match value {
        Some(text) => text@,
        None => default,
    }
}

/// Whether a setting has exactly this text.
pub open spec fn is_set_to(value: Option<String>, text: Seq<char>) -> bool {
    value matches Some(v) && v@ == text
}

/// A setting, or its default, read as a `u64`.
pub open spec fn u64_setting(value: Option<String>, default: Seq<char>) -> Option<int> {
    in_range(unsigned_value(text_or(value, default)), 0, u64::MAX as int)
}

/// A setting, or its default, read as a `u32`.
pub open spec fn u32_setting(value: Option<String>, default: Seq<char>) -> Option<int> {
    in_range(unsigned_value(text_or(value, default)), 0, u32::MAX as int)
}

/// A setting, or its default, read as an `i64`.
pub open spec fn i64_setting(value: Option<String>, default: Seq<char>) -> Option<int> {
    in_range(signed_value(text_or(value, default)), i64::MIN as int, i64::MAX as int)
}

impl EnvVars {
    pub open spec fn startup_delay(&self) -> Option<int> {
        u64_setting(self.startup_delay_secs, "30"@)
    }

    pub open spec fn poll_interval(&self) -> Option<int> {
        u64_setting(self.poll_interval_secs, "3600"@)
    }

    pub open spec fn release_delay(&self) -> Option<int> {
        i64_setting(self.release_delay_hours, "6"@)
    }

    pub open spec fn check_interval(&self) -> Option<int> {
        u64_setting(self.rate_limit_check_interval_secs, "60"@)
    }

    pub open spec fn max_polls(&self) -> Option<int> {
        u32_setting(self.rate_limit_max_polls, "100"@)
    }

    pub open spec fn window(&self) -> Option<int> {
        u64_setting(self.rate_limit_window_secs, "3600"@)
    }

    /// The first of the general settings that is not a number of its kind.
    pub open spec fn invalid_general(&self) -> Option<ConfigError> {
        if self.startup_delay() is None {
            Some(ConfigError::StartupDelay)
        } else if self.poll_interval() is None {
            Some(ConfigError::PollInterval)
        } else if self.release_delay() is None {
            Some(ConfigError::ReleaseDelay)
        } else {
            None
        }
    }

    /// The first of all settings that is not a number of its kind.
    pub open spec fn invalid(&self) -> Option<ConfigError> {
        if self.invalid_general() is Some {
            self.invalid_general()
        } else if self.check_interval() is None {
            Some(ConfigError::RateLimitCheckInterval)
        } else if self.max_polls() is None {
            Some(ConfigError::RateLimitMaxPolls)
        } else if self.window() is None {
            Some(ConfigError::RateLimitWindow)
        } else {
            None
        }
    }

    /// The setting for want of which these settings cannot be used at all:
    /// the general settings are in order, and one that the chosen notifier
    /// needs is not set.
    pub open spec fn missing(&self) -> Option<MissingSetting> {
        if self.invalid_general() is Some {
            None
        } else if is_set_to(self.notifier, "gotify"@) {
            if self.gotify_url is None {
                Some(MissingSetting::GotifyUrl)
            } else if self.gotify_token is None {
                Some(MissingSetting::GotifyToken)
            } else {
                None
            }
        } else if is_set_to(self.notifier, "ntfy"@) && self.ntfy_topic is None {
            Some(MissingSetting::NtfyTopic)
        } else {
            None
        }
    }

    /// Whether `notifier` is what these settings choose.
    pub open spec fn chooses(&self, notifier: NotifierConfig) -> bool {
        if is_set_to(self.notifier, "gotify"@) {
            notifier matches NotifierConfig::Gotify { url, token } && self.gotify_url == Some(url)
                && self.gotify_token == Some(token)
        } else if is_set_to(self.notifier, "ntfy"@) {
            notifier matches NotifierConfig::Ntfy { url, topic } && url@ == text_or(
                self.ntfy_url,
                "https://ntfy.sh"@,
            ) && self.ntfy_topic == Some(topic)
        } else {
            notifier is Disabled
        }
    }

    /// Whether `config` holds what these settings say.
    pub open spec fn describes(&self, config: Config) -> bool {
        &&& config.state_file@ == text_or(self.state_file, "/var/lib/rawrr/state.json"@)
        &&& self.startup_delay() == Some(config.startup_delay_secs as int)
        &&& self.poll_interval() == Some(config.poll_interval_secs as int)
        &&& self.release_delay() == Some(config.release_delay_hours as int)
        &&& config.docker_host@ == text_or(self.docker_host, "unix:///var/run/docker.sock"@)
        &&& config.label_policy@ == text_or(self.label_policy, "rawrr.policy"@)
        &&& config.label_ignore@ == text_or(self.label_ignore, "rawrr.ignore"@)
        &&& config.label_notify@ == text_or(self.label_notify, "rawrr.notify"@)
        &&& config.label_update@ == text_or(self.label_update, "rawrr.update"@)
        &&& self.chooses(config.notifier)
        &&& self.check_interval() == Some(config.rate_limit_check_interval_secs as int)
        &&& self.max_polls() == Some(config.rate_limit_max_polls as int)
        &&& self.window() == Some(config.rate_limit_window_secs as int)
        &&& config.registry_credentials.deep_view() == credentials(
            split(text_or(self.registry_credentials, ""@), ','),
        )
        &&& config.registry_credentials.well_formed()
        &&& config.dry_run == (is_set_to(self.dry_run, "true"@) || is_set_to(self.dry_run, "1"@)
            || is_set_to(self.dry_run, "yes"@))
    }

    /// The setting for want of which these settings cannot be used at all.
    pub fn missing_setting(&self) -> (missing: Option<MissingSetting>)
        ensures
            missing == self.missing(),
    {
        if parse_u64(setting(&self.startup_delay_secs, "30").as_str()).is_none() || parse_u64(
            setting(&self.poll_interval_secs, "3600").as_str(),
        ).is_none() || parse_i64(setting(&self.release_delay_hours, "6").as_str()).is_none() {
            return None;
        }
        if set_to(&self.notifier, "gotify") {
            if self.gotify_url.is_none() {
                Some(MissingSetting::GotifyUrl)
            } else if self.gotify_token.is_none() {
                Some(MissingSetting::GotifyToken)
            } else {
                None
            }
        } else if set_to(&self.notifier, "ntfy") && self.ntfy_topic.is_none() {
            Some(MissingSetting::NtfyTopic)
        } else {
            None
        }
    }
}

/// The text of a setting, or its default.
fn setting(value: &Option<String>, default: &str) -> (text: String)
    ensures
        text@ == text_or(*value, default@),
{
    match value {
        Some(text) => text.clone(),
        None => default.to_owned(),
    }
}

/// Whether a setting has exactly this text.
fn set_to(value: &Option<String>, text: &str) -> (yes: bool)
    ensures
        yes == is_set_to(*value, text@),
{
    match value {
        Some(v) => same_text(v.as_str(), text),
        None => false,
    }
}

/// The names of the labels that control what is done about a container.
pub struct LabelNames {
    /// The label whose value names a policy.
    pub policy: Seq<char>,
    /// The labels that choose a policy by the value `true`.
    pub ignore: Seq<char>,
    pub notify: Seq<char>,
    pub update: Seq<char>,
}

impl Config {
    /// The names of the labels that control what is done about a container.
    pub open spec fn label_names(&self) -> LabelNames {
        LabelNames {
            policy: self.label_policy@,
            ignore: self.label_ignore@,
            notify: self.label_notify@,
            update: self.label_update@,
        }
    }

    /// The release delay is a span of time that can be held.
    pub open spec fn delay_in_range(&self) -> bool {
        seconds_in_range(self.release_delay_hours * 3600)
    }

    /// The settings that the environment holds.
    pub fn from_vars(vars: &EnvVars) -> (config: Result<Config, ConfigError>)
        requires
            vars.missing() is None,
        ensures
            match config {
                Ok(c) => vars.invalid() is None && vars.describes(c),
                Err(e) => vars.invalid() == Some(e),
            },
    {
        let state_file: String = setting(&vars.state_file, "/var/lib/rawrr/state.json");
        let startup_delay_secs: u64 = match parse_u64(
            setting(&vars.startup_delay_secs, "30").as_str(),
        ) {
            Some(v) => v,
            None => {
                return Err(ConfigError::StartupDelay);
            },
        };
        let poll_interval_secs: u64 = match parse_u64(
            setting(&vars.poll_interval_secs, "3600").as_str(),
        ) {
            Some(v) => v,
            None => {
                return Err(ConfigError::PollInterval);
            },
        };
        let release_delay_hours: i64 = match parse_i64(
            setting(&vars.release_delay_hours, "6").as_str(),
        ) {
            Some(v) => v,
            None => {
                return Err(ConfigError::ReleaseDelay);
            },
        };
        let docker_host: String = setting(&vars.docker_host, "unix:///var/run/docker.sock");
        let label_policy: String = setting(&vars.label_policy, "rawrr.policy");
        let label_ignore: String = setting(&vars.label_ignore, "rawrr.ignore");
        let label_notify: String = setting(&vars.label_notify, "rawrr.notify");
        let label_update: String = setting(&vars.label_update, "rawrr.update");
        let notifier: NotifierConfig = if set_to(&vars.notifier, "gotify") {
            match (&vars.gotify_url, &vars.gotify_token) {
                (Some(url), Some(token)) => NotifierConfig::Gotify {
                    url: url.clone(),
                    token: token.clone(),
                },
                _ => NotifierConfig::Disabled,
            }
        } else if set_to(&vars.notifier, "ntfy") {
            match &vars.ntfy_topic {
                Some(topic) => NotifierConfig::Ntfy {
                    url: setting(&vars.ntfy_url, "https://ntfy.sh"),
                    topic: topic.clone(),
                },
                None => NotifierConfig::Disabled,
            }
        } else {
            NotifierConfig::Disabled
        };
        let rate_limit_check_interval_secs: u64 = match parse_u64(
            setting(&vars.rate_limit_check_interval_secs, "60").as_str(),
        ) {
            Some(v) => v,
            None => {
                return Err(ConfigError::RateLimitCheckInterval);
            },
        };
        let rate_limit_max_polls: u32 = match parse_u32(
            setting(&vars.rate_limit_max_polls, "100").as_str(),
        ) {
            Some(v) => v,
            None => {
                return Err(ConfigError::RateLimitMaxPolls);
            },
        };
        let rate_limit_window_secs: u64 = match parse_u64(
            setting(&vars.rate_limit_window_secs, "3600").as_str(),
        ) {
            Some(v) => v,
            None => {
                return Err(ConfigError::RateLimitWindow);
            },
        };
        let listed: String = setting(&vars.registry_credentials, "");
        let registry_credentials = parse_registry_credentials(listed.as_str());
        let dry_run: bool = set_to(&vars.dry_run, "true") || set_to(&vars.dry_run, "1") || set_to(
            &vars.dry_run,
            "yes",
        );
        Ok(
            Config {
                state_file,
                startup_delay_secs,
                poll_interval_secs,
                release_delay_hours,
                docker_host,
                label_policy,
                label_ignore,
                label_notify,
                label_update,
                notifier,
                rate_limit_check_interval_secs,
                rate_limit_max_polls,
                rate_limit_window_secs,
                registry_credentials,
                dry_run,
            },
        )
    }

    /// Whether the release delay is a span of time that can be held.
    pub fn has_delay_in_range(&self) -> (yes: bool)
        ensures
            yes == self.delay_in_range(),
    {
        let secs: i128 = self.release_delay_hours as i128 * 3600;
        -(crate::time::MAX_DURATION_SECS as i128) <= secs && secs
            <= crate::time::MAX_DURATION_SECS as i128
    }

    /// How long an image must be known before it is upgraded to.
    pub fn get_release_delay(&self) -> (delay: Duration)
        requires
            self.delay_in_range(),
        ensures
            delay@ == self.release_delay_hours * 3600 * NANOS_PER_SEC,
    {
        Duration::hours(self.release_delay_hours)
    }
}

/// The registry, user name and password that an entry of the list gives. The
/// registry ends at the first `=`, the user name at the first `:` after that.
pub open spec fn credential(entry: Seq<char>) -> Option<(Seq<char>, (Seq<char>, Seq<char>))> {
    match split_once(trim(entry), '=') {
        Some((registry, login)) => match split_once(login, ':') {
            Some(pair) => Some((registry, pair)),
            None => None,
        },
        None => None,
    }
}

/// The credentials that a list of entries gives. Of two entries for one
/// registry the later counts; what is no entry is passed over.
pub open spec fn credentials(entries: Seq<Seq<char>>) -> Map<
    Seq<char>,
    (Seq<char>, Seq<char>),
>
    decreases entries.len(),
{
    if entries.len() == 0 {
        Map::empty()
    } else {
        let rest = credentials(entries.drop_last());
        match credential(entries.last()) {
            Some((registry, pair)) => rest.insert(registry, pair),
            None => rest,
        }
    }
}

/// Reads a list of credentials such as
/// `docker.io=user:token,ghcr.io=user:ghp_token`.
pub fn parse_registry_credentials(s: &str) -> (map: NameMap<(String, String)>)
    ensures
        map.deep_view() == credentials(split(s@, ',')),
        map.well_formed(),
{
    let entries: Vec<String> = split_text(s, ',');
    let ghost all = split(s@, ',');
    let mut map: NameMap<(String, String)> = NameMap::new();
    let mut i: usize = 0;
    assert(map.deep_view() =~= credentials(all.take(0)));
    while i < entries.len()
        invariant
            i <= entries.len(),
            all == views(entries@),
            map.well_formed(),
            map.deep_view() == credentials(all.take(i as int)),
        decreases entries.len() - i,
    {
        let ghost before = map;
        proof {
            assert(all.take(i + 1).drop_last() =~= all.take(i as int));
            assert(all.take(i + 1).last() == entries@[i as int]@);
        }
        let entry: &str = trim_text(entries[i].as_str());
        match split_text_once(entry, '=') {
            Some((registry, login)) => {
                match split_text_once(login, ':') {
                    Some((user, pass)) => {
                        map.insert(registry.to_owned(), (user.to_owned(), pass.to_owned()));
                        assert(map.deep_view() =~= before.deep_view().insert(
                            registry@,
                            (user@, pass@),
                        ));
                    },
                    None => {},
                }
            },
            None => {},
        }
        i = i + 1;
    }
    assert(all.take(i as int) =~= all);
    map
}

/// An entry gives the registry, user name and password that it is made of.
/// Only the first `=` and the first `:` after it count, so a password may hold
/// either.
pub proof fn law_credential_entry_reads_back(
    registry: Seq<char>,
    user: Seq<char>,
    password: Seq<char>,
)
    requires
        !registry.contains('='),
        !user.contains(':'),
        !(registry + seq!['='] + user + seq![':'] + password).contains(','),
        trim(registry + seq!['='] + user + seq![':'] + password) == registry + seq!['='] + user
            + seq![':'] + password,
    ensures
        credentials(split(registry + seq!['='] + user + seq![':'] + password, ',')) == Map::<
            Seq<char>,
            (Seq<char>, Seq<char>),
        >::empty().insert(registry, (user, password)),
{
    let login = user + seq![':'] + password;
    let entry = registry + seq!['='] + user + seq![':'] + password;
    lemma_split_whole(entry, ',');
    assert forall|k: int| 0 <= k < registry.len() implies entry[k] != '=' by {
        assert(entry[k] == registry[k]);
        assert(registry.contains(registry[k]));
    }
    lemma_first_of_is(entry, '=', registry.len() as int);
    assert(entry.take(registry.len() as int) =~= registry);
    assert(entry.skip((registry.len() + 1) as int) =~= login);
    assert forall|k: int| 0 <= k < user.len() implies login[k] != ':' by {
        assert(login[k] == user[k]);
        assert(user.contains(user[k]));
    }
    lemma_first_of_is(login, ':', user.len() as int);
    assert(login.take(user.len() as int) =~= user);
    assert(login.skip((user.len() + 1) as int) =~= password);
    let entries = seq![entry];
    assert(entries.drop_last() =~= Seq::<Seq<char>>::empty());
    assert(credentials(entries.drop_last()) == Map::<
        Seq<char>,
        (Seq<char>, Seq<char>),
    >::empty());
    assert(entries.last() == entry);
}

/// Two lists joined by a comma give what both give; where both name a
/// registry the second counts.
pub proof fn law_credential_lists_join(a: Seq<char>, b: Seq<char>)
    ensures
        credentials(split(a + seq![','] + b, ',')) == credentials(split(a, ',')).union_prefer_right(
            credentials(split(b, ',')),
        ),
{
    lemma_split_join(a, b, ',');
    lemma_credentials_add(split(a, ','), split(b, ','));
}

proof fn lemma_credentials_add(a: Seq<Seq<char>>, b: Seq<Seq<char>>)
    ensures
        credentials(a + b) == credentials(a).union_prefer_right(credentials(b)),
    decreases b.len(),
{
    let both = credentials(a).union_prefer_right(credentials(b));
    if b.len() == 0 {
        assert(a + b =~= a);
        assert(credentials(a + b) =~= both);
    } else {
        lemma_credentials_add(a, b.drop_last());
        assert((a + b).drop_last() =~= a + b.drop_last());
        assert(credentials(a + b) =~= both);
    }
}

} // verus!
