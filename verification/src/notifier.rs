//! The notifications that announce updates.

use crate::config::NotifierConfig;
use crate::digest::{sliceable, truncate_digest, truncated};
use crate::text::{trim_end_matches, trim_text_end_matches};
use vstd::prelude::*;

verus! {

/// An update that is announced.
#[derive(Debug, Clone)]
pub struct Notification {
    pub service_name: String,
    pub old_digest: String,
    pub new_digest: String,
    pub action: NotificationAction,
}

/// What is done about an update.
#[derive(Debug, Clone, Copy, PartialEq, Eq, Structural)]
pub enum NotificationAction {
    /// The update is applied.
    Update,
    /// The update is only announced.
    NotifyOnly,
}

/// Announces updates.
#[derive(Debug, Clone, Copy)]
pub struct Notifier;

/// What is sent to announce an update.
#[derive(Debug, Clone)]
pub enum Message {
    /// A JSON object with these members, posted to a Gotify server.
    Gotify { url: String, title: String, message: String, priority: i64 },
    /// A text, posted to an ntfy server with a `Title` header.
    Ntfy { url: String, title: String, message: String },
}

/// The title of a Gotify message.
pub open spec fn gotify_title(service: Seq<char>, action: NotificationAction) -> Seq<char> {
    match action {
        NotificationAction::Update => "🐳 "@ + service + " - Update Available & Applied"@,
        NotificationAction::NotifyOnly => "ℹ️ "@ + service + " - Update Available"@,
    }
}

/// The title of an ntfy message.
pub open spec fn ntfy_title(service: Seq<char>, action: NotificationAction) -> Seq<char> {
    match action {
        NotificationAction::Update => "🐳 "@ + service + " - Update Applied"@,
        NotificationAction::NotifyOnly => "ℹ️ "@ + service + " - Update Available"@,
    }
}

/// The priority of a Gotify message: an update that is applied ranks higher.
pub open spec fn gotify_priority(action: NotificationAction) -> int {
    match action {
        NotificationAction::Update => 5,
        NotificationAction::NotifyOnly => 3,
    }
}

/// The text of a message that names the old and the new digest.
pub open spec fn digests_text(
    old_label: Seq<char>,
    old_digest: Seq<char>,
    new_label: Seq<char>,
    new_digest: Seq<char>,
) -> Seq<char> {
    old_label + truncated(old_digest) + new_label + truncated(new_digest)
}

/// Whether `message` is what announces `notification` under `config`.
pub open spec fn announces(
    config: NotifierConfig,
    notification: Notification,
    message: Option<Message>,
) -> bool {
    let service = notification.service_name@;
    let action = notification.action;
    let old_digest = notification.old_digest@;
    let new_digest = notification.new_digest@;
    match config {
        NotifierConfig::Gotify { url: server, token } => {
            &&& message matches Some(Message::Gotify { url, title, message, priority })
            &&& url@ == trim_end_matches(server@, '/') + "/message?token="@ + token@
            &&& title@ == gotify_title(service, action)
            &&& message@ == digests_text(
                "Old digest: "@,
                old_digest,
                "\nNew digest: "@,
                new_digest,
            )
            &&& priority == gotify_priority(action)
        },
        NotifierConfig::Ntfy { url: server, topic } => {
            &&& message matches Some(Message::Ntfy { url, title, message })
            &&& url@ == trim_end_matches(server@, '/') + "/"@ + topic@
            &&& title@ == ntfy_title(service, action)
            &&& message@ == digests_text("Old: "@, old_digest, "\nNew: "@, new_digest)
        },
        NotifierConfig::Disabled => message is None,
    }
}

/// Four texts joined.
fn join(a: &str, b: &str, c: &str, d: &str) -> (text: String)
    ensures
        text@ == a@ + b@ + c@ + d@,
{
    let mut text: String = a.to_owned();
    text.append(b);
    text.append(c);
    text.append(d);
    text
}

/// Three texts joined.
fn join3(a: &str, b: &str, c: &str) -> (text: String)
    ensures
        text@ == a@ + b@ + c@,
{
    let mut text: String = a.to_owned();
    text.append(b);
    text.append(c);
    text
}

impl Notifier {
    /// The message that announces an update, if updates are announced.
    pub fn compose(config: &NotifierConfig, notification: &Notification) -> (message: Option<
        Message,
    >)
        requires
            *config is Disabled || (sliceable(notification.old_digest@) && sliceable(
                notification.new_digest@,
            )),
        ensures
            announces(*config, *notification, message),
    {
        let service: &str = notification.service_name.as_str();
        match config {
            NotifierConfig::Gotify { url, token } => {
                let title: String = match notification.action {
                    NotificationAction::Update => join3(
                        "🐳 ",
                        service,
                        " - Update Available & Applied",
                    ),
                    NotificationAction::NotifyOnly => join3("ℹ️ ", service, " - Update Available"),
                };
                let old_digest: String = truncate_digest(notification.old_digest.as_str());
                let new_digest: String = truncate_digest(notification.new_digest.as_str());
                let message: String = join(
                    "Old digest: ",
                    old_digest.as_str(),
                    "\nNew digest: ",
                    new_digest.as_str(),
                );
                let priority: i64 = match notification.action {
                    NotificationAction::Update => 5,
                    NotificationAction::NotifyOnly => 3,
                };
                let base: &str = trim_text_end_matches(url.as_str(), '/');
                let address: String = join3(base, "/message?token=", token.as_str());
                Some(Message::Gotify { url: address, title, message, priority })
            },
            NotifierConfig::Ntfy { url, topic } => {
                let title: String = match notification.action {
                    NotificationAction::Update => join3("🐳 ", service, " - Update Applied"),
                    NotificationAction::NotifyOnly => join3("ℹ️ ", service, " - Update Available"),
                };
                let old_digest: String = truncate_digest(notification.old_digest.as_str());
                let new_digest: String = truncate_digest(notification.new_digest.as_str());
                let message: String = join(
                    "Old: ",
                    old_digest.as_str(),
                    "\nNew: ",
                    new_digest.as_str(),
                );
                let base: &str = trim_text_end_matches(url.as_str(), '/');
                let address: String = join3(base, "/", topic.as_str());
                Some(Message::Ntfy { url: address, title, message })
            },
            NotifierConfig::Disabled => None,
        }
    }
}

} // verus!
