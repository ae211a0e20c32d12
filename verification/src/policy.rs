//! What is to be done about updates of a container.

use crate::config::{Config, LabelNames};
use crate::docker::Container;
use crate::name_map::NameMap;
use crate::text::{same_text, trim_start_matches, trim_text_start_matches};
use vstd::prelude::*;
use vstd::utf8::is_ascii_chars;

verus! {

/// What is to be done about updates of a container.
#[derive(Debug, Clone, Copy, PartialEq, Eq, Structural)]
pub enum ContainerPolicy {
    /// Nothing.
    Ignore,
    /// They are announced.
    Notify,
    /// They are announced and applied.
    Update,
}

/// What `str::to_lowercase` returns.
pub uninterp spec fn lowercase(s: Seq<char>) -> Seq<char>;

/// The lower-case form of an ASCII character.
pub open spec fn ascii_lower(c: char) -> char {
    if 'A' <= c <= 'Z' {
        (c as u32 + 32) as char
    } else {
        c
    }
}

/// `str::to_lowercase` gives the lower-case form of text as Unicode defines it,
/// which is named [`lowercase`] here. Of text in ASCII it is claimed that `A`
/// to `Z` become `a` to `z` and that the rest stays as it is.
pub assume_specification[ str::to_lowercase ](s: &str) -> (lower: String)
    ensures
        lower@ == lowercase(s@),
        is_ascii_chars(s@) ==> lower@ == s@.map_values(|c: char| ascii_lower(c)),
;

/// The policy that a value in lower case denotes.
pub open spec fn policy_of(value: Seq<char>) -> Option<ContainerPolicy> {
    if value == "ignore"@ || value == "false"@ || value == "off"@ {
        Some(ContainerPolicy::Ignore)
    } else if value == "notify"@ {
        Some(ContainerPolicy::Notify)
    } else if value == "update"@ {
        Some(ContainerPolicy::Update)
    } else {
        None
    }
}

/// Whether a label has the value `true`.
pub open spec fn switched_on(labels: Map<Seq<char>, String>, label: Seq<char>) -> bool {
    labels.contains_key(label) && labels[label]@ == "true"@
}

/// The policy that the labels denote which choose one by the value `true`. Of
/// several the most cautious counts.
pub open spec fn switched_policy(
    labels: Map<Seq<char>, String>,
    names: LabelNames,
) -> Option<ContainerPolicy> {
    if switched_on(labels, names.ignore) {
        Some(ContainerPolicy::Ignore)
    } else if switched_on(labels, names.notify) {
        Some(ContainerPolicy::Notify)
    } else if switched_on(labels, names.update) {
        Some(ContainerPolicy::Update)
    } else {
        None
    }
}

/// The policy that a set of labels denotes: that which the policy label names,
/// in whatever case its value is written, or, without that label, that which
/// another label chooses by the value `true`.
pub open spec fn labelled_policy(
    labels: Map<Seq<char>, String>,
    names: LabelNames,
) -> Option<ContainerPolicy> {
    if labels.contains_key(names.policy) {
        policy_of(lowercase(labels[names.policy]@))
    } else {
        switched_policy(labels, names)
    }
}

/// The policy that a value in lower case denotes.
pub fn policy_from_value(value: &str) -> (policy: Option<ContainerPolicy>)
    ensures
        policy == policy_of(value@),
{
    if same_text(value, "ignore") || same_text(value, "false") || same_text(value, "off") {
        Some(ContainerPolicy::Ignore)
    } else if same_text(value, "notify") {
        Some(ContainerPolicy::Notify)
    } else if same_text(value, "update") {
        Some(ContainerPolicy::Update)
    } else {
        None
    }
}

/// Whether a label has the value `true`.
fn is_switched_on(labels: &NameMap<String>, label: &str) -> (on: bool)
    ensures
        on == switched_on(labels@, label@),
{
    match labels.get(label) {
        Some(value) => same_text(value.as_str(), "true"),
        None => false,
    }
}

/// The policy for a container with these labels.
pub fn get_container_policy(config: &Config, labels: &NameMap<String>) -> (policy: Option<
    ContainerPolicy,
>)
    ensures
        policy == labelled_policy(labels@, config.label_names()),
        labels@.contains_key(config.label_policy@) && is_ascii_chars(
            labels@[config.label_policy@]@,
        ) ==> policy == policy_of(
            labels@[config.label_policy@]@.map_values(|c: char| ascii_lower(c)),
        ),
{
    match labels.get(config.label_policy.as_str()) {
        Some(value) => {
            let lower: String = value.as_str().to_lowercase();
            policy_from_value(lower.as_str())
        },
        None => {
            if is_switched_on(labels, config.label_ignore.as_str()) {
                Some(ContainerPolicy::Ignore)
            } else if is_switched_on(labels, config.label_notify.as_str()) {
                Some(ContainerPolicy::Notify)
            } else if is_switched_on(labels, config.label_update.as_str()) {
                Some(ContainerPolicy::Update)
            } else {
                None
            }
        },
    }
}

/// The name of the service that a container runs: the first name of the
/// container, or its identifier, without the slashes in front.
pub open spec fn service_name_of(container: Container) -> Seq<char> {
    trim_start_matches(
        if container.names@.len() > 0 {
            container.names@[0]@
        } else {
            container.id@
        },
        '/',
    )
}

/// The name of the service that a container runs.
pub fn service_name(container: &Container) -> (name: String)
    ensures
        name@ == service_name_of(*container),
{
    if container.names.len() > 0 {
        trim_text_start_matches(container.names[0].as_str(), '/').to_owned()
    } else {
        trim_text_start_matches(container.id.as_str(), '/').to_owned()
    }
}

/// A line of the report of a dry run.
#[derive(Debug, Clone)]
pub struct DryRunLine {
    pub service_name: String,
    pub image: String,
    /// The value of the policy label.
    pub label: String,
    /// The policy that was found.
    pub resolved: String,
}

/// How a dry run names a policy.
pub open spec fn policy_word(policy: Option<ContainerPolicy>) -> Seq<char> {
    match policy {
        Some(ContainerPolicy::Ignore) => "ignore"@,
        Some(ContainerPolicy::Notify) => "notify"@,
        Some(ContainerPolicy::Update) => "update"@,
        None => "(skipped — no recognised policy)"@,
    }
}

/// Whether `line` is what a dry run reports of a container.
pub open spec fn reports(line: DryRunLine, container: Container, names: LabelNames) -> bool {
    &&& line.service_name@ == service_name_of(container)
    &&& line.image@ == container.image@
    &&& line.label@ == if container.labels@.contains_key(names.policy) {
        container.labels@[names.policy]@
    } else {
        "(none)"@
    }
    &&& line.resolved@ == policy_word(labelled_policy(container.labels@, names))
}

/// What a dry run reports of each container.
pub fn dry_run_report(config: &Config, containers: &Vec<Container>) -> (lines: Vec<DryRunLine>)
    ensures
        lines.len() == containers.len(),
        forall|i: int|
            0 <= i < lines.len() ==> reports(
                #[trigger] lines@[i],
                containers@[i],
                config.label_names(),
            ),
{
    let mut lines: Vec<DryRunLine> = Vec::new();
    let mut i: usize = 0;
    while i < containers.len()
        invariant
            i <= containers.len(),
            lines.len() == i,
            forall|j: int|
                0 <= j < i ==> reports(
                    #[trigger] lines@[j],
                    containers@[j],
                    config.label_names(),
                ),
        decreases containers.len() - i,
    {
        let container: &Container = &containers[i];
        let label: String = match container.labels.get(config.label_policy.as_str()) {
            Some(value) => value.clone(),
            None => "(none)".to_owned(),
        };
        let resolved: String = match get_container_policy(config, &container.labels) {
            Some(ContainerPolicy::Ignore) => "ignore".to_owned(),
            Some(ContainerPolicy::Notify) => "notify".to_owned(),
            Some(ContainerPolicy::Update) => "update".to_owned(),
            None => "(skipped — no recognised policy)".to_owned(),
        };
        lines.push(
            DryRunLine {
                service_name: service_name(container),
                image: container.image.clone(),
                label,
                resolved,
            },
        );
        i = i + 1;
    }
    lines
}

} // verus!
