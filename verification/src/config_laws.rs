//! What holds of the settings.

use crate::config::{
    credential, credentials, law_credential_entry_reads_back, law_credential_lists_join, Config,
    ConfigError, EnvVars, MissingSetting, NotifierConfig,
};
use crate::number::{all_digits, digit, digits_value, signed_value, unsigned_value};
use crate::text::{
    lemma_first_of, lemma_first_of_is, lemma_split_whole, lemma_trim_parts, split, trim, white_space,
};
use vstd::prelude::*;

verus! {

/// The character of a digit.
pub open spec fn digit_char(d: int) -> char {
    (48 + d) as char
}

/// A number written in decimal, without zeros in front.
pub open spec fn decimal(n: nat) -> Seq<char>
    decreases n,
{
    if n < 10 {
        seq![digit_char(n as int)]
    } else {
        decimal(n / 10).push(digit_char((n % 10) as int))
    }
}

proof fn lemma_decimal(n: nat)
    ensures
        all_digits(decimal(n)),
        digits_value(decimal(n)) == n,
    decreases n,
{
    let s = decimal(n);
    if n < 10 {
        assert(s.drop_last() =~= Seq::empty());
        assert(digits_value(s.drop_last()) == 0);
    } else {
        lemma_decimal(n / 10);
        assert(s.drop_last() =~= decimal(n / 10));
        assert forall|k: int| 0 <= k < s.len() implies digit(#[trigger] s[k]) by {
            if k < s.len() - 1 {
                assert(digit(decimal(n / 10)[k]));
            }
        }
    }
}

/// A number that is written in decimal reads back, with and without a sign.
pub proof fn law_decimal_reads_back(n: nat)
    ensures
        unsigned_value(decimal(n)) == Some(n as int),
        unsigned_value(seq!['+'] + decimal(n)) == Some(n as int),
        signed_value(decimal(n)) == Some(n as int),
        signed_value(seq!['+'] + decimal(n)) == Some(n as int),
        signed_value(seq!['-'] + decimal(n)) == Some(-(n as int)),
        unsigned_value(seq!['-'] + decimal(n)) is None,
{
    let s = decimal(n);
    lemma_decimal(n);
    assert(digit(s[0]));
    assert((seq!['+'] + s).skip(1) =~= s);
    assert((seq!['-'] + s).skip(1) =~= s);
    assert(!digit((seq!['-'] + s)[0]));
}

/// Zeros in front of a number change nothing.
pub proof fn law_leading_zero_changes_nothing(s: Seq<char>)
    requires
        s.len() > 0,
        forall|k: int| 0 <= k < s.len() ==> '0' <= #[trigger] s[k] <= '9',
    ensures
        unsigned_value(seq!['0'] + s) == unsigned_value(s),
        unsigned_value(s) matches Some(v) && v >= 0,
{
    let t = seq!['0'] + s;
    lemma_leading_zero(s);
    assert forall|k: int| 0 <= k < t.len() implies digit(#[trigger] t[k]) by {
        if k > 0 {
            assert('0' <= s[k - 1] <= '9');
        }
    }
    assert('0' <= s[0] <= '9');
    assert(all_digits(s));
    assert(all_digits(t));
    assert(t[0] == '0');
}

proof fn lemma_leading_zero(s: Seq<char>)
    requires
        forall|k: int| 0 <= k < s.len() ==> '0' <= #[trigger] s[k] <= '9',
    ensures
        digits_value(seq!['0'] + s) == digits_value(s),
        digits_value(s) >= 0,
    decreases s.len(),
{
    let t = seq!['0'] + s;
    if s.len() == 0 {
        assert(t.drop_last() =~= Seq::empty());
        assert(digits_value(t.drop_last()) == 0);
        assert(t.last() == '0');
    } else {
        assert(t.drop_last() =~= seq!['0'] + s.drop_last());
        assert forall|k: int| 0 <= k < s.drop_last().len() implies '0' <= #[trigger] s.drop_last()[k]
            <= '9' by {
            assert('0' <= s[k] <= '9');
        }
        lemma_leading_zero(s.drop_last());
        assert('0' <= s[s.len() - 1] <= '9');
    }
}

/// Nothing but digits, with a sign in front at most, is a number.
pub proof fn law_only_digits_are_numbers(s: Seq<char>)
    ensures
        unsigned_value(s) is Some <==> {
            let from = if s.len() > 0 && s[0] == '+' {
                1int
            } else {
                0
            };
            from < s.len() && forall|k: int| from <= k < s.len() ==> '0' <= #[trigger] s[k] <= '9'
        },
        signed_value(s) is Some <==> {
            let from = if s.len() > 0 && (s[0] == '+' || s[0] == '-') {
                1int
            } else {
                0
            };
            from < s.len() && forall|k: int| from <= k < s.len() ==> '0' <= #[trigger] s[k] <= '9'
        },
{
    let t = s.skip(1);
    if s.len() > 0 {
        assert(all_digits(t) <==> 1 < s.len() && forall|k: int|
            1 <= k < s.len() ==> '0' <= #[trigger] s[k] <= '9') by {
            if all_digits(t) {
                assert forall|k: int| 1 <= k < s.len() implies '0' <= #[trigger] s[k] <= '9' by {
                    assert(digit(t[k - 1]));
                }
            }
            if forall|k: int| 1 <= k < s.len() ==> '0' <= #[trigger] s[k] <= '9' {
                assert forall|k: int| 0 <= k < t.len() implies digit(
                    #[trigger] t[k],
                ) by {
                    assert('0' <= s[k + 1] <= '9');
                }
            }
        }
        assert(all_digits(s) <==> forall|k: int|
            0 <= k < s.len() ==> '0' <= #[trigger] s[k] <= '9') by {
            if all_digits(s) {
                assert forall|k: int| 0 <= k < s.len() implies '0' <= #[trigger] s[k] <= '9' by {
                    assert(digit(s[k]));
                }
            }
        }
    }
}

proof fn lemma_default_numbers()
    ensures
        unsigned_value("30"@) == Some(30int),
        unsigned_value("3600"@) == Some(3600int),
        unsigned_value("60"@) == Some(60int),
        unsigned_value("100"@) == Some(100int),
        signed_value("6"@) == Some(6int),
{
    reveal_strlit("30");
    reveal_strlit("3600");
    reveal_strlit("60");
    reveal_strlit("100");
    reveal_strlit("6");
    reveal_with_fuel(decimal, 5);
    law_decimal_reads_back(30);
    law_decimal_reads_back(3600);
    law_decimal_reads_back(60);
    law_decimal_reads_back(100);
    law_decimal_reads_back(6);
    assert("30"@ =~= decimal(30));
    assert("3600"@ =~= decimal(3600));
    assert("60"@ =~= decimal(60));
    assert("100"@ =~= decimal(100));
    assert("6"@ =~= decimal(6));
}

/// A setting is a number up to `high`, or it is not set.
pub open spec fn unset_or_up_to(value: Option<String>, high: int) -> bool {
    match value {
        Some(text) => unsigned_value(text@) matches Some(v) && v <= high,
        None => true,
    }
}

/// A setting is a signed number of 64 bits, or it is not set.
pub open spec fn unset_or_signed(value: Option<String>) -> bool {
    match value {
        Some(text) => signed_value(text@) matches Some(v) && i64::MIN <= v <= i64::MAX,
        None => true,
    }
}

proof fn lemma_unsigned_not_negative(s: Seq<char>)
    ensures
        unsigned_value(s) matches Some(v) ==> v >= 0,
{
    let digits = if s.len() > 0 && s[0] == '+' {
        s.skip(1)
    } else {
        s
    };
    if all_digits(digits) {
        assert forall|k: int| 0 <= k < digits.len() implies '0' <= #[trigger] digits[k]
            <= '9' by {
            assert(digit(digits[k]));
        }
        lemma_leading_zero(digits);
    }
}

/// A setting that is not a number of its kind is refused, the first one in the
/// order of the settings, and settings without such a one are not.
pub proof fn law_bad_numbers_are_refused(vars: EnvVars)
    ensures
        ({
            let startup = unset_or_up_to(vars.startup_delay_secs, u64::MAX as int);
            let poll = unset_or_up_to(vars.poll_interval_secs, u64::MAX as int);
            let release = unset_or_signed(vars.release_delay_hours);
            let check = unset_or_up_to(vars.rate_limit_check_interval_secs, u64::MAX as int);
            let max = unset_or_up_to(vars.rate_limit_max_polls, u32::MAX as int);
            let window = unset_or_up_to(vars.rate_limit_window_secs, u64::MAX as int);
            &&& vars.invalid() is None <==> startup && poll && release && check && max && window
            &&& vars.invalid() == Some(ConfigError::StartupDelay) <==> !startup
            &&& vars.invalid() == Some(ConfigError::PollInterval) <==> startup && !poll
            &&& vars.invalid() == Some(ConfigError::ReleaseDelay) <==> startup && poll && !release
            &&& vars.invalid() == Some(ConfigError::RateLimitCheckInterval) <==> startup && poll
                && release && !check
            &&& vars.invalid() == Some(ConfigError::RateLimitMaxPolls) <==> startup && poll
                && release && check && !max
            &&& vars.invalid() == Some(ConfigError::RateLimitWindow) <==> startup && poll
                && release && check && max && !window
        }),
{
    lemma_default_numbers();
    lemma_given_not_negative(vars.startup_delay_secs);
    lemma_given_not_negative(vars.poll_interval_secs);
    lemma_given_not_negative(vars.rate_limit_check_interval_secs);
    lemma_given_not_negative(vars.rate_limit_max_polls);
    lemma_given_not_negative(vars.rate_limit_window_secs);
}

proof fn lemma_given_not_negative(value: Option<String>)
    ensures
        value matches Some(text) ==> (unsigned_value(text@) matches Some(v) ==> v >= 0),
{
    match value {
        Some(text) => {
            lemma_unsigned_not_negative(text@);
        },
        None => {},
    }
}

/// Each number is the one that its variable writes, or its default.
pub proof fn law_numbers_are_read(vars: EnvVars, config: Config)
    requires
        vars.describes(config),
    ensures
        match vars.startup_delay_secs {
            Some(text) => unsigned_value(text@) == Some(config.startup_delay_secs as int),
            None => config.startup_delay_secs == 30,
        },
        match vars.poll_interval_secs {
            Some(text) => unsigned_value(text@) == Some(config.poll_interval_secs as int),
            None => config.poll_interval_secs == 3600,
        },
        match vars.release_delay_hours {
            Some(text) => signed_value(text@) == Some(config.release_delay_hours as int),
            None => config.release_delay_hours == 6,
        },
        match vars.rate_limit_check_interval_secs {
            Some(text) => unsigned_value(text@) == Some(
                config.rate_limit_check_interval_secs as int,
            ),
            None => config.rate_limit_check_interval_secs == 60,
        },
        match vars.rate_limit_max_polls {
            Some(text) => unsigned_value(text@) == Some(config.rate_limit_max_polls as int),
            None => config.rate_limit_max_polls == 100,
        },
        match vars.rate_limit_window_secs {
            Some(text) => unsigned_value(text@) == Some(config.rate_limit_window_secs as int),
            None => config.rate_limit_window_secs == 3600,
        },
{
    lemma_default_numbers();
}

/// Each text is the one that its variable holds, or its default.
pub proof fn law_texts_are_read(vars: EnvVars, config: Config)
    requires
        vars.describes(config),
    ensures
        config.state_file@ == match vars.state_file {
            Some(text) => text@,
            None => "/var/lib/rawrr/state.json"@,
        },
        config.docker_host@ == match vars.docker_host {
            Some(text) => text@,
            None => "unix:///var/run/docker.sock"@,
        },
        config.label_policy@ == match vars.label_policy {
            Some(text) => text@,
            None => "rawrr.policy"@,
        },
        config.label_ignore@ == match vars.label_ignore {
            Some(text) => text@,
            None => "rawrr.ignore"@,
        },
        config.label_notify@ == match vars.label_notify {
            Some(text) => text@,
            None => "rawrr.notify"@,
        },
        config.label_update@ == match vars.label_update {
            Some(text) => text@,
            None => "rawrr.update"@,
        },
{
}

/// With `RAWRR_DRY_RUN` set to `true` the run is a dry one.
pub proof fn law_true_means_dry_run(vars: EnvVars, config: Config)
    requires
        vars.describes(config),
        vars.dry_run matches Some(text) && text@ == "true"@,
    ensures
        config.dry_run,
{
}

/// With `RAWRR_DRY_RUN` set to `1` the run is a dry one.
pub proof fn law_one_means_dry_run(vars: EnvVars, config: Config)
    requires
        vars.describes(config),
        vars.dry_run matches Some(text) && text@ == "1"@,
    ensures
        config.dry_run,
{
}

/// With `RAWRR_DRY_RUN` set to `yes` the run is a dry one.
pub proof fn law_yes_means_dry_run(vars: EnvVars, config: Config)
    requires
        vars.describes(config),
        vars.dry_run matches Some(text) && text@ == "yes"@,
    ensures
        config.dry_run,
{
}

/// With `RAWRR_DRY_RUN` unset, or set to any other text, the run is no dry one.
pub proof fn law_anything_else_means_no_dry_run(vars: EnvVars, config: Config)
    requires
        vars.describes(config),
        match vars.dry_run {
            Some(text) => text@ != "true"@ && text@ != "1"@ && text@ != "yes"@,
            None => true,
        },
    ensures
        !config.dry_run,
{
}

proof fn lemma_notifier_words_differ()
    ensures
        "gotify"@ != "ntfy"@,
{
    reveal_strlit("gotify");
    reveal_strlit("ntfy");
    assert("gotify"@.len() != "ntfy"@.len());
}

/// With `gotify` chosen, updates are announced through Gotify, at the address
/// and with the token that are set.
pub proof fn law_gotify_is_chosen(vars: EnvVars, config: Config)
    requires
        vars.describes(config),
        vars.notifier matches Some(text) && text@ == "gotify"@,
    ensures
        config.notifier matches NotifierConfig::Gotify { url, token } && {
            &&& vars.gotify_url matches Some(given) && url@ == given@
            &&& vars.gotify_token matches Some(given) && token@ == given@
        },
{
}

/// With `ntfy` chosen, updates are announced through ntfy, on the topic that is
/// set, at the address that is set or else at `https://ntfy.sh`.
pub proof fn law_ntfy_is_chosen(vars: EnvVars, config: Config)
    requires
        vars.describes(config),
        vars.notifier matches Some(text) && text@ == "ntfy"@,
    ensures
        config.notifier matches NotifierConfig::Ntfy { url, topic } && {
            &&& url@ == match vars.ntfy_url {
                Some(given) => given@,
                None => "https://ntfy.sh"@,
            }
            &&& vars.ntfy_topic matches Some(given) && topic@ == given@
        },
{
    lemma_notifier_words_differ();
}

/// With no notifier chosen, or one that is not known, nothing is announced.
pub proof fn law_unknown_notifier_is_off(vars: EnvVars, config: Config)
    requires
        vars.describes(config),
        match vars.notifier {
            Some(text) => text@ != "gotify"@ && text@ != "ntfy"@,
            None => true,
        },
    ensures
        config.notifier is Disabled,
{
}

/// Which setting is missing: one that the chosen notifier needs and that is not
/// set, unless one of the first three numbers is refused before that.
pub proof fn law_missing_settings(vars: EnvVars)
    ensures
        ({
            let sound = unset_or_up_to(vars.startup_delay_secs, u64::MAX as int)
                && unset_or_up_to(vars.poll_interval_secs, u64::MAX as int) && unset_or_signed(
                vars.release_delay_hours,
            );
            let gotify = vars.notifier matches Some(text) && text@ == "gotify"@;
            let ntfy = vars.notifier matches Some(text) && text@ == "ntfy"@;
            &&& vars.missing() == Some(MissingSetting::GotifyUrl) <==> sound && gotify
                && vars.gotify_url is None
            &&& vars.missing() == Some(MissingSetting::GotifyToken) <==> sound && gotify
                && vars.gotify_url is Some && vars.gotify_token is None
            &&& vars.missing() == Some(MissingSetting::NtfyTopic) <==> sound && ntfy
                && vars.ntfy_topic is None
        }),
{
    lemma_notifier_words_differ();
    law_bad_numbers_are_refused(vars);
    lemma_default_numbers();
    lemma_given_not_negative(vars.startup_delay_secs);
    lemma_given_not_negative(vars.poll_interval_secs);
}

/// White space around an entry of the credentials changes nothing.
pub proof fn law_credential_entries_are_trimmed(
    before: Seq<char>,
    entry: Seq<char>,
    after: Seq<char>,
)
    requires
        forall|k: int| 0 <= k < before.len() ==> white_space(#[trigger] before[k]),
        forall|k: int| 0 <= k < after.len() ==> white_space(#[trigger] after[k]),
        entry.len() > 0,
        !white_space(entry[0]),
        !white_space(entry.last()),
        !(before + entry + after).contains(','),
    ensures
        credentials(split(before + entry + after, ',')) == credentials(split(entry, ',')),
{
    let whole = before + entry + after;
    lemma_trim_parts(before, entry, after);
    lemma_trim_parts(Seq::empty(), entry, Seq::empty());
    assert(Seq::<char>::empty() + entry + Seq::<char>::empty() =~= entry);
    assert(!entry.contains(',')) by {
        if entry.contains(',') {
            let k = choose|k: int| 0 <= k < entry.len() && entry[k] == ',';
            assert(whole[before.len() + k] == ',');
        }
    }
    lemma_split_whole(whole, ',');
    lemma_split_whole(entry, ',');
    assert(seq![whole].drop_last() =~= Seq::<Seq<char>>::empty());
    assert(seq![entry].drop_last() =~= Seq::<Seq<char>>::empty());
    assert(seq![whole].last() == whole);
    assert(seq![entry].last() == entry);
}

proof fn lemma_no_credential(entry: Seq<char>)
    requires
        !entry.contains(','),
        credential(entry) is None,
    ensures
        credentials(split(entry, ',')) == Map::<Seq<char>, (Seq<char>, Seq<char>)>::empty(),
{
    lemma_split_whole(entry, ',');
    let entries = seq![entry];
    assert(entries.drop_last() =~= Seq::<Seq<char>>::empty());
    assert(credentials(entries.drop_last()) == Map::<
        Seq<char>,
        (Seq<char>, Seq<char>),
    >::empty());
    assert(entries.last() == entry);
}

/// An entry without `=` gives no credentials.
pub proof fn law_entry_without_registry_gives_nothing(entry: Seq<char>)
    requires
        !entry.contains(','),
        !trim(entry).contains('='),
    ensures
        credentials(split(entry, ',')) == Map::<Seq<char>, (Seq<char>, Seq<char>)>::empty(),
{
    lemma_first_of(trim(entry), '=');
    lemma_no_credential(entry);
}

/// An entry without `:` behind its first `=` gives no credentials.
pub proof fn law_entry_without_password_gives_nothing(
    entry: Seq<char>,
    registry: Seq<char>,
    login: Seq<char>,
)
    requires
        !entry.contains(','),
        trim(entry) == registry + seq!['='] + login,
        !registry.contains('='),
        !login.contains(':'),
    ensures
        credentials(split(entry, ',')) == Map::<Seq<char>, (Seq<char>, Seq<char>)>::empty(),
{
    let t = trim(entry);
    let i = registry.len() as int;
    assert forall|k: int| 0 <= k < i implies t[k] != '=' by {
        assert(t[k] == registry[k]);
        assert(registry.contains(registry[k]));
    }
    assert(t[i] == '=');
    lemma_first_of_is(t, '=', i);
    assert(t.skip(i + 1) =~= login);
    lemma_first_of(login, ':');
    lemma_no_credential(entry);
}

/// The labels go by the names that are set for them.
pub proof fn law_label_names(config: Config)
    ensures
        config.label_names().policy == config.label_policy@,
        config.label_names().ignore == config.label_ignore@,
        config.label_names().notify == config.label_notify@,
        config.label_names().update == config.label_update@,
{
}

/// The credentials are those that the variable lists; without it there are none.
pub proof fn law_credentials_are_read(vars: EnvVars, config: Config)
    requires
        vars.describes(config),
    ensures
        vars.registry_credentials matches Some(text) ==> config.registry_credentials.deep_view()
            == credentials(split(text@, ',')),
        vars.registry_credentials is None ==> config.registry_credentials.deep_view() == Map::<
            Seq<char>,
            (Seq<char>, Seq<char>),
        >::empty(),
{
    reveal_strlit("");
    if vars.registry_credentials is None {
        assert(trim(""@) =~= ""@) by {
            assert(""@.len() == 0);
        }
        assert(!""@.contains(','));
        law_entry_without_registry_gives_nothing(""@);
    }
}

/// An entry in the list gives its registry the user and the password that it
/// names, unless a later entry gives others.
pub proof fn law_listed_credentials_are_found(
    vars: EnvVars,
    config: Config,
    front: Seq<char>,
    registry: Seq<char>,
    user: Seq<char>,
    password: Seq<char>,
)
    requires
        vars.describes(config),
        !registry.contains('='),
        !user.contains(':'),
        !(registry + seq!['='] + user + seq![':'] + password).contains(','),
        trim(registry + seq!['='] + user + seq![':'] + password) == registry + seq!['='] + user
            + seq![':'] + password,
        vars.registry_credentials matches Some(text) && text@ == front + seq![','] + (registry
            + seq!['='] + user + seq![':'] + password),
    ensures
        config.registry_credentials.deep_view().contains_key(registry),
        config.registry_credentials.deep_view()[registry] == (user, password),
{
    let entry = registry + seq!['='] + user + seq![':'] + password;
    law_credential_entry_reads_back(registry, user, password);
    law_credential_lists_join(front, entry);
}

/// A release delay can be held up to 2562047788015 hours either way.
pub proof fn law_range_of_the_release_delay(config: Config)
    ensures
        config.delay_in_range() <==> -2_562_047_788_015 <= config.release_delay_hours
            <= 2_562_047_788_015,
{
}

} // verus!
