use rawrr::config::NotifierConfig;
use rawrr::notifier::{Message, Notification, NotificationAction, Notifier};

fn notification(action: NotificationAction) -> Notification {
    Notification {
        service_name: "plex".to_string(),
        old_digest: "".to_string(),
        new_digest: "sha256:0123456789abcdef".to_string(),
        action,
    }
}

fn gotify(url: &str) -> NotifierConfig {
    NotifierConfig::Gotify { url: url.to_string(), token: "tok".to_string() }
}

fn ntfy(url: &str) -> NotifierConfig {
    NotifierConfig::Ntfy { url: url.to_string(), topic: "updates".to_string() }
}

#[test]
fn gotify_messages() {
    match Notifier::compose(
        &gotify("http://gotify.example.com/"),
        &notification(NotificationAction::Update),
    ) {
        Some(Message::Gotify { url, title, message, priority }) => {
            assert_eq!(url, "http://gotify.example.com/message?token=tok");
            assert_eq!(title, "🐳 plex - Update Available & Applied");
            assert_eq!(message, "Old digest: \nNew digest: sha256:0123456789ab…");
            assert_eq!(priority, 5);
        }
        other => panic!("{:?}", other),
    }
    match Notifier::compose(&gotify("http://g"), &notification(NotificationAction::NotifyOnly)) {
        Some(Message::Gotify { url, title, priority, .. }) => {
            assert_eq!(url, "http://g/message?token=tok");
            assert_eq!(title, "ℹ️ plex - Update Available");
            assert_eq!(priority, 3);
        }
        other => panic!("{:?}", other),
    }
}

#[test]
fn ntfy_messages() {
    match Notifier::compose(&ntfy("https://ntfy.sh//"), &notification(NotificationAction::Update)) {
        Some(Message::Ntfy { url, title, message }) => {
            assert_eq!(url, "https://ntfy.sh/updates");
            assert_eq!(title, "🐳 plex - Update Applied");
            assert_eq!(message, "Old: \nNew: sha256:0123456789ab…");
        }
        other => panic!("{:?}", other),
    }
    match Notifier::compose(&ntfy("https://ntfy.sh"), &notification(NotificationAction::NotifyOnly)) {
        Some(Message::Ntfy { title, .. }) => {
            assert_eq!(title, "ℹ️ plex - Update Available");
        }
        other => panic!("{:?}", other),
    }
}

#[test]
fn nothing_is_sent_when_notifications_are_off() {
    assert!(Notifier::compose(
        &NotifierConfig::Disabled,
        &notification(NotificationAction::Update),
    )
    .is_none());
}
