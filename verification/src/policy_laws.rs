//! What holds of the policies that labels denote.

use crate::config::LabelNames;
use crate::docker::Container;
use crate::policy::{
    labelled_policy, lowercase, policy_of, policy_word, reports, service_name_of, ContainerPolicy,
    DryRunLine,
};
use crate::text::lemma_trim_start_matches;
use vstd::prelude::*;

verus! {

proof fn lemma_words_differ()
    ensures
        "notify"@ != "ignore"@,
        "notify"@ != "false"@,
        "notify"@ != "off"@,
        "update"@ != "ignore"@,
        "update"@ != "false"@,
        "update"@ != "off"@,
        "update"@ != "notify"@,
{
    reveal_strlit("ignore");
    reveal_strlit("false");
    reveal_strlit("off");
    reveal_strlit("notify");
    reveal_strlit("update");
    assert("notify"@[0] == 'n');
    assert("ignore"@[0] == 'i');
    assert("false"@[0] == 'f');
    assert("off"@[0] == 'o');
    assert("update"@[0] == 'u');
}

/// The words that denote each policy, in lower case; nothing else denotes one.
pub proof fn law_words_of_policies(value: Seq<char>)
    ensures
        policy_of(value) == Some(ContainerPolicy::Ignore) <==> value == "ignore"@ || value
            == "false"@ || value == "off"@,
        policy_of(value) == Some(ContainerPolicy::Notify) <==> value == "notify"@,
        policy_of(value) == Some(ContainerPolicy::Update) <==> value == "update"@,
{
    lemma_words_differ();
}

/// The policy label decides alone: other labels change nothing, and values with
/// the same lower-case form denote the same policy.
pub proof fn law_policy_label_decides_alone(
    a: Map<Seq<char>, String>,
    b: Map<Seq<char>, String>,
    names: LabelNames,
)
    requires
        a.contains_key(names.policy),
        b.contains_key(names.policy),
        lowercase(a[names.policy]@) == lowercase(b[names.policy]@),
    ensures
        labelled_policy(a, names) == labelled_policy(b, names),
{
}

/// What the policy label denotes.
pub proof fn law_policy_label_is_read(labels: Map<Seq<char>, String>, names: LabelNames)
    requires
        labels.contains_key(names.policy),
    ensures
        ({
            let value = lowercase(labels[names.policy]@);
            &&& labelled_policy(labels, names) == Some(ContainerPolicy::Ignore) <==> value
                == "ignore"@ || value == "false"@ || value == "off"@
            &&& labelled_policy(labels, names) == Some(ContainerPolicy::Notify) <==> value
                == "notify"@
            &&& labelled_policy(labels, names) == Some(ContainerPolicy::Update) <==> value
                == "update"@
        }),
{
    lemma_words_differ();
}

/// A label is there and has the value `true`.
pub open spec fn is_true(labels: Map<Seq<char>, String>, name: Seq<char>) -> bool {
    labels.contains_key(name) && labels[name]@ == "true"@
}

/// Without the policy label, a policy is chosen by the label of its own that
/// has the value `true`; to ignore comes before to notify, and that before to
/// update. Without any of them there is no policy.
pub proof fn law_switch_labels_are_read(labels: Map<Seq<char>, String>, names: LabelNames)
    requires
        !labels.contains_key(names.policy),
    ensures
        labelled_policy(labels, names) == Some(ContainerPolicy::Ignore) <==> is_true(
            labels,
            names.ignore,
        ),
        labelled_policy(labels, names) == Some(ContainerPolicy::Notify) <==> !is_true(
            labels,
            names.ignore,
        ) && is_true(labels, names.notify),
        labelled_policy(labels, names) == Some(ContainerPolicy::Update) <==> !is_true(
            labels,
            names.ignore,
        ) && !is_true(labels, names.notify) && is_true(labels, names.update),
        labelled_policy(labels, names) is None <==> !is_true(labels, names.ignore) && !is_true(
            labels,
            names.notify,
        ) && !is_true(labels, names.update),
{
}

/// A service is called by the first name of its container, without the slashes
/// in front, and without a name by the identifier.
pub proof fn law_names_of_services(container: Container, slashes: nat, name: Seq<char>)
    requires
        name.len() == 0 || name[0] != '/',
        container.names@.len() > 0 ==> container.names@[0]@ == Seq::new(slashes, |k: int| '/')
            + name,
        container.names@.len() == 0 ==> container.id@ == Seq::new(slashes, |k: int| '/') + name,
    ensures
        service_name_of(container) == name,
{
    lemma_trim_start_matches(slashes, name, '/');
}

/// A dry run tells of each container its service, its image, the value of its
/// policy label and the policy that was found.
pub proof fn law_dry_run_lines(line: DryRunLine, container: Container, names: LabelNames)
    requires
        reports(line, container, names),
    ensures
        line.service_name@ == service_name_of(container),
        line.image@ == container.image@,
        container.labels@.contains_key(names.policy) ==> line.label@
            == container.labels@[names.policy]@,
        !container.labels@.contains_key(names.policy) ==> line.label@ == "(none)"@,
        labelled_policy(container.labels@, names) == Some(ContainerPolicy::Ignore)
            ==> line.resolved@ == "ignore"@,
        labelled_policy(container.labels@, names) == Some(ContainerPolicy::Notify)
            ==> line.resolved@ == "notify"@,
        labelled_policy(container.labels@, names) == Some(ContainerPolicy::Update)
            ==> line.resolved@ == "update"@,
        labelled_policy(container.labels@, names) is None ==> line.resolved@
            == "(skipped — no recognised policy)"@,
{
}

/// Different policies are named differently.
pub proof fn law_policy_words_differ(a: Option<ContainerPolicy>, b: Option<ContainerPolicy>)
    requires
        a != b,
    ensures
        policy_word(a) != policy_word(b),
{
    lemma_words_differ();
    reveal_strlit("ignore");
    reveal_strlit("notify");
    reveal_strlit("update");
    reveal_strlit("(skipped — no recognised policy)");
    assert("ignore"@[0] == 'i');
    assert("notify"@[0] == 'n');
    assert("update"@[0] == 'u');
    assert("(skipped — no recognised policy)"@[0] == '(');
}

} // verus!
