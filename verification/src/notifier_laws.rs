//! What holds of the messages that announce updates.

use crate::config::NotifierConfig;
use crate::digest::{
    label_len, law_ascii_short_form, law_short_form_is_a_prefix, lemma_encode_add, short_form,
    short_len, sliceable, truncated,
};
use crate::notifier::{announces, Message, Notification, NotificationAction};
use crate::text::{first_of, lemma_first_of, lemma_first_of_is, lemma_trim_end_matches};
use vstd::prelude::*;
use vstd::utf8::{
    encode_utf8, encode_utf8_valid_utf8, is_ascii_chars, is_ascii_chars_encode_utf8,
    is_char_boundary, is_char_boundary_start_end_of_seq,
};

verus! {

/// An ASCII digest is shown by its label, the `:` and twelve characters of its
/// hash, with an ellipsis behind them if the hash has more; a digest with no
/// more than that is shown as it is.
pub proof fn law_labelled_digest_is_shown(label: Seq<char>, hash: Seq<char>)
    requires
        is_ascii_chars(label),
        is_ascii_chars(hash),
        !label.contains(':'),
    ensures
        ({
            let digest = label + seq![':'] + hash;
            &&& hash.len() > 12 ==> truncated(digest) == label + seq![':'] + hash.take(12) + seq![
                '\u{2026}',
            ]
            &&& hash.len() > 12 ==> short_form(digest) == label + seq![':'] + hash.take(12)
            &&& hash.len() <= 12 ==> truncated(digest) == digest
            &&& hash.len() <= 12 ==> short_form(digest) == digest
        }),
{
    let digest = label + seq![':'] + hash;
    assert(is_ascii_chars(digest));
    law_ascii_short_form(digest);
    let i = label.len() as int;
    assert forall|k: int| 0 <= k < i implies digest[k] != ':' by {
        assert(digest[k] == label[k]);
        assert(label.contains(label[k]));
    }
    assert(digest[i] == ':');
    lemma_first_of_is(digest, ':', i);
    assert(digest.contains(digest[i]));
    if hash.len() > 12 {
        assert(digest.take(i + 13) =~= label + seq![':'] + hash.take(12));
    } else {
        assert(digest.take(digest.len() as int) =~= digest);
    }
}

/// An ASCII digest without a label is shown by its first twelve characters.
pub proof fn law_bare_digest_is_shown(digest: Seq<char>)
    requires
        is_ascii_chars(digest),
        !digest.contains(':'),
    ensures
        digest.len() > 12 ==> truncated(digest) == digest.take(12) + seq!['\u{2026}'],
        digest.len() > 12 ==> short_form(digest) == digest.take(12),
        digest.len() <= 12 ==> truncated(digest) == digest,
        digest.len() <= 12 ==> short_form(digest) == digest,
{
    law_ascii_short_form(digest);
    assert(digest.take(digest.len() as int) =~= digest);
}

/// Of any digest twelve bytes behind the first `:` are shown, and an ellipsis
/// if there are more.
pub proof fn law_shown_length(digest: Seq<char>)
    requires
        sliceable(digest),
    ensures
        ({
            let total = encode_utf8(digest).len();
            let labelled = exists|label: Seq<char>, hash: Seq<char>|
                digest == #[trigger] (label + seq![':'] + hash) && !label.contains(':')
                    && encode_utf8(short_form(digest)).len() == if encode_utf8(label).len() + 13
                    < total {
                    encode_utf8(label).len() + 13
                } else {
                    total
                };
            digest.contains(':') ==> labelled
        }),
        !digest.contains(':') ==> encode_utf8(short_form(digest)).len() == if 12
            < encode_utf8(digest).len() {
            12
        } else {
            encode_utf8(digest).len()
        },
        short_form(digest).is_prefix_of(digest),
        encode_utf8(short_form(digest)).len() < encode_utf8(digest).len() ==> truncated(digest)
            == short_form(digest) + seq!['\u{2026}'],
        encode_utf8(short_form(digest)).len() == encode_utf8(digest).len() ==> truncated(digest)
            == digest,
{
    law_short_form_is_a_prefix(digest);
    lemma_first_of(digest, ':');
    if digest.contains(':') {
        let i = first_of(digest, ':');
        let label = digest.take(i);
        let hash = digest.skip(i + 1);
        assert(digest =~= label + seq![':'] + hash);
        assert(!label.contains(':')) by {
            if label.contains(':') {
                let k = choose|k: int| 0 <= k < label.len() && label[k] == ':';
                assert(digest[k] == ':');
            }
        }
        lemma_encode_add(label, seq![':']);
        assert(is_ascii_chars(seq![':']));
        is_ascii_chars_encode_utf8(seq![':']);
        assert(digest.take(i + 1) =~= label + seq![':']);
        assert(label_len(digest) == encode_utf8(label).len() + 1);
        assert(digest == label + seq![':'] + hash);
    }
}

/// A Gotify message: the title names the service and says whether the update is
/// applied, the text shows the old digest behind `Old digest: ` and the new one
/// on the next line behind `New digest: `, and an update that is applied ranks
/// higher.
pub proof fn law_gotify_message(
    server: String,
    token: String,
    notification: Notification,
    sent: Option<Message>,
)
    requires
        announces(NotifierConfig::Gotify { url: server, token }, notification, sent),
    ensures
        sent matches Some(Message::Gotify { url, title, message, priority }) && {
            &&& message@ == "Old digest: "@ + truncated(notification.old_digest@)
                + "\nNew digest: "@ + truncated(notification.new_digest@)
            &&& notification.action == NotificationAction::Update ==> title@ == "🐳 "@
                + notification.service_name@ + " - Update Available & Applied"@ && priority == 5
            &&& notification.action == NotificationAction::NotifyOnly ==> title@ == "ℹ️ "@
                + notification.service_name@ + " - Update Available"@ && priority == 3
        },
{
}

/// An ntfy message: the title names the service and says whether the update is
/// applied, and the text shows the old digest behind `Old: ` and the new one on
/// the next line behind `New: `.
pub proof fn law_ntfy_message(
    server: String,
    topic: String,
    notification: Notification,
    sent: Option<Message>,
)
    requires
        announces(NotifierConfig::Ntfy { url: server, topic }, notification, sent),
    ensures
        sent matches Some(Message::Ntfy { url, title, message }) && {
            &&& message@ == "Old: "@ + truncated(notification.old_digest@) + "\nNew: "@
                + truncated(notification.new_digest@)
            &&& notification.action == NotificationAction::Update ==> title@ == "🐳 "@
                + notification.service_name@ + " - Update Applied"@
            &&& notification.action == NotificationAction::NotifyOnly ==> title@ == "ℹ️ "@
                + notification.service_name@ + " - Update Available"@
        },
{
}

/// A Gotify message goes to the server, without slashes at the end of its
/// address, with the token.
pub proof fn law_gotify_address(
    server: String,
    token: String,
    notification: Notification,
    sent: Option<Message>,
    base: Seq<char>,
    slashes: nat,
)
    requires
        announces(NotifierConfig::Gotify { url: server, token }, notification, sent),
        server@ == base + Seq::new(slashes, |k: int| '/'),
        base.len() == 0 || base.last() != '/',
    ensures
        sent matches Some(Message::Gotify { url, .. }) && url@ == base + "/message?token="@
            + token@,
{
    lemma_trim_end_matches(base, slashes, '/');
}

/// An ntfy message goes to the topic at the server, without slashes at the end
/// of its address.
pub proof fn law_ntfy_address(
    server: String,
    topic: String,
    notification: Notification,
    sent: Option<Message>,
    base: Seq<char>,
    slashes: nat,
)
    requires
        announces(NotifierConfig::Ntfy { url: server, topic }, notification, sent),
        server@ == base + Seq::new(slashes, |k: int| '/'),
        base.len() == 0 || base.last() != '/',
    ensures
        sent matches Some(Message::Ntfy { url, .. }) && url@ == base + "/"@ + topic@,
{
    lemma_trim_end_matches(base, slashes, '/');
}

/// Without a notifier nothing is sent, and with one something is.
pub proof fn law_something_is_sent_iff_a_notifier_is_chosen(
    config: NotifierConfig,
    notification: Notification,
    sent: Option<Message>,
)
    requires
        announces(config, notification, sent),
    ensures
        sent is None <==> config is Disabled,
        sent matches Some(Message::Gotify { .. }) <==> config is Gotify,
        sent matches Some(Message::Ntfy { .. }) <==> config is Ntfy,
{
}

/// The text of a message.
pub open spec fn text_of(message: Message) -> Seq<char> {
    match message {
        Message::Gotify { message, .. } => message@,
        Message::Ntfy { message, .. } => message@,
    }
}

/// Two updates whose old digests look different, or whose new ones do, are
/// announced by different texts, as long as no digest holds a line break.
pub proof fn law_different_digests_are_told_apart(
    config: NotifierConfig,
    a: Notification,
    b: Notification,
    first: Message,
    second: Message,
)
    requires
        announces(config, a, Some(first)),
        announces(config, b, Some(second)),
        !truncated(a.old_digest@).contains('\n'),
        !truncated(b.old_digest@).contains('\n'),
        truncated(a.old_digest@) != truncated(b.old_digest@) || truncated(a.new_digest@)
            != truncated(b.new_digest@),
    ensures
        text_of(first) != text_of(second),
{
    if config is Gotify {
        reveal_strlit("\nNew digest: ");
        lemma_told_apart(
            "Old digest: "@,
            truncated(a.old_digest@),
            truncated(b.old_digest@),
            "\nNew digest: "@,
            truncated(a.new_digest@),
            truncated(b.new_digest@),
        );
    } else {
        reveal_strlit("\nNew: ");
        lemma_told_apart(
            "Old: "@,
            truncated(a.old_digest@),
            truncated(b.old_digest@),
            "\nNew: "@,
            truncated(a.new_digest@),
            truncated(b.new_digest@),
        );
    }
}

proof fn lemma_told_apart(
    front: Seq<char>,
    x: Seq<char>,
    y: Seq<char>,
    middle: Seq<char>,
    u: Seq<char>,
    v: Seq<char>,
)
    requires
        middle.len() > 0,
        middle[0] == '\n',
        !x.contains('\n'),
        !y.contains('\n'),
        x != y || u != v,
    ensures
        front + x + middle + u != front + y + middle + v,
{
    let s = front + x + middle + u;
    let t = front + y + middle + v;
    let n = front.len() as int;
    if s == t {
        if x.len() < y.len() {
            assert(s[n + x.len()] == '\n');
            assert(t[n + x.len()] == y[x.len() as int]);
            assert(y.contains(y[x.len() as int]));
        } else if y.len() < x.len() {
            assert(t[n + y.len()] == '\n');
            assert(s[n + y.len()] == x[y.len() as int]);
            assert(x.contains(x[y.len() as int]));
        } else {
            assert(x =~= s.subrange(n, n + x.len()));
            assert(y =~= t.subrange(n, n + x.len()));
            let m = n + x.len() + middle.len();
            assert(u =~= s.skip(m));
            assert(v =~= t.skip(m));
        }
    }
}

/// A digest can be shown in short if it is ASCII, and if it is no longer than
/// what is shown.
pub proof fn law_digests_that_can_be_shown(digest: Seq<char>)
    ensures
        is_ascii_chars(digest) ==> sliceable(digest),
        short_len(digest) == encode_utf8(digest).len() ==> sliceable(digest),
        sliceable(digest) ==> is_char_boundary(encode_utf8(digest), short_len(digest)),
{
    encode_utf8_valid_utf8(digest);
    is_char_boundary_start_end_of_seq(encode_utf8(digest));
    if is_ascii_chars(digest) {
        law_ascii_short_form(digest);
    }
}

} // verus!
