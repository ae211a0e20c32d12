//! What holds of image references and of the requests made for them.

use crate::docker::{
    answer_gives, asks_for, image_name, image_parts, image_tag, manifest_url, registry_kind,
    socket_path_of, DigestError, DigestRequest, RegistryKind,
};
use crate::text::{
    first_of, lemma_first_of, lemma_first_of_is, lemma_last_of, lemma_last_of_is,
    lemma_trim_start_matches, trim_start_matches,
};
use vstd::prelude::*;

verus! {

/// A component of a name is a registry: it holds a `.` or a `:`.
pub open spec fn names_registry(component: Seq<char>) -> bool {
    exists|k: int|
        0 <= k < component.len() && (#[trigger] component[k] == '.' || component[k] == ':')
}

proof fn lemma_names_registry(component: Seq<char>)
    ensures
        names_registry(component) <==> component.contains('.') || component.contains(':'),
{
    if names_registry(component) {
        let k = choose|k: int|
            0 <= k < component.len() && (#[trigger] component[k] == '.' || component[k] == ':');
        assert(component.contains(component[k]));
    }
}

/// A reference `name:tag` has this tag, and the rest of it is read as that of
/// `name` alone.
pub proof fn law_tag_follows_the_last_colon(name: Seq<char>, tag: Seq<char>)
    requires
        !tag.contains(':'),
    ensures
        image_parts(name + seq![':'] + tag).2 == tag,
        !name.contains(':') ==> image_parts(name + seq![':'] + tag).0 == image_parts(name).0,
        !name.contains(':') ==> image_parts(name + seq![':'] + tag).1 == image_parts(name).1,
{
    lemma_tagged(name, tag);
    if !name.contains(':') {
        lemma_last_of(name, ':');
    }
}

proof fn lemma_tagged(name: Seq<char>, tag: Seq<char>)
    requires
        !tag.contains(':'),
    ensures
        image_name(name + seq![':'] + tag) == name,
        image_tag(name + seq![':'] + tag) == tag,
{
    let image = name + seq![':'] + tag;
    let colon = name.len() as int;
    assert forall|k: int| colon < k < image.len() implies image[k] != ':' by {
        assert(image[k] == tag[k - colon - 1]);
        assert(tag.contains(tag[k - colon - 1]));
    }
    lemma_last_of_is(image, ':', colon);
    assert(image.take(colon) =~= name);
    assert(image.skip(colon + 1) =~= tag);
}

/// A reference without a `:` has the tag `latest`.
pub proof fn law_untagged_reference_is_latest(name: Seq<char>)
    requires
        !name.contains(':'),
    ensures
        image_parts(name).2 == "latest"@,
{
    lemma_last_of(name, ':');
}

/// What is asked for, by the tag: the address ends in `/manifests/` and the tag
/// that the reference writes.
pub proof fn law_written_tag_is_asked_for(
    request: DigestRequest,
    name: Seq<char>,
    tag: Seq<char>,
)
    requires
        asks_for(request, name + seq![':'] + tag),
        !tag.contains(':'),
    ensures
        ("/manifests/"@ + tag).is_suffix_of(request.url@),
{
    lemma_tagged(name, tag);
    let end = "/manifests/"@ + tag;
    let url = request.url@;
    assert(url.subrange(url.len() - end.len(), url.len() as int) =~= end);
}

/// Without a `:` in the reference the tag `latest` is asked for.
pub proof fn law_latest_is_asked_for(request: DigestRequest, name: Seq<char>)
    requires
        asks_for(request, name),
        !name.contains(':'),
    ensures
        ("/manifests/"@ + "latest"@).is_suffix_of(request.url@),
{
    lemma_last_of(name, ':');
    let end = "/manifests/"@ + "latest"@;
    let url = request.url@;
    assert(url.subrange(url.len() - end.len(), url.len() as int) =~= end);
}

/// References that differ in their tags only are asked for at different
/// addresses, and otherwise in the same way.
pub proof fn law_other_tag_other_address(
    a: DigestRequest,
    b: DigestRequest,
    name: Seq<char>,
    tag: Seq<char>,
    other: Seq<char>,
)
    requires
        asks_for(a, name + seq![':'] + tag),
        asks_for(b, name + seq![':'] + other),
        !tag.contains(':'),
        !other.contains(':'),
        tag != other,
    ensures
        a.url@ != b.url@,
        a.kind == b.kind,
        a.accept@ == b.accept@,
        a.registry@ == b.registry@,
        exists|front: Seq<char>|
            #![trigger front + tag]
            a.url@ == front + tag && b.url@ == front + other,
{
    lemma_tagged(name, tag);
    lemma_tagged(name, other);
    let (registry, repository, t) = image_parts(name + seq![':'] + tag);
    let front = manifest_url(registry, repository, Seq::empty());
    assert(a.url@ =~= front + tag);
    assert(b.url@ =~= front + other);
    if a.url@ == b.url@ {
        assert(tag =~= a.url@.skip(front.len() as int));
        assert(other =~= b.url@.skip(front.len() as int));
    }
}

proof fn lemma_hosts()
    ensures
        "docker.io"@ != "ghcr.io"@,
        "docker.io"@ != ""@,
        "https://"@ + "registry.hub.docker.com"@ + "/v2/"@
            == "https://registry.hub.docker.com/v2/"@,
        "https://registry.hub.docker.com/v2/"@ + "library/"@
            == "https://registry.hub.docker.com/v2/library/"@,
        "https://"@ + "ghcr.io"@ + "/v2/"@ == "https://ghcr.io/v2/"@,
{
    reveal_strlit("docker.io");
    reveal_strlit("ghcr.io");
    reveal_strlit("");
    reveal_strlit("https://");
    reveal_strlit("registry.hub.docker.com");
    reveal_strlit("/v2/");
    reveal_strlit("library/");
    reveal_strlit("https://registry.hub.docker.com/v2/");
    reveal_strlit("https://registry.hub.docker.com/v2/library/");
    reveal_strlit("https://ghcr.io/v2/");
    assert("docker.io"@.len() != "ghcr.io"@.len());
    assert("https://"@ + "registry.hub.docker.com"@ + "/v2/"@
        =~= "https://registry.hub.docker.com/v2/"@);
    assert("https://registry.hub.docker.com/v2/"@ + "library/"@
        =~= "https://registry.hub.docker.com/v2/library/"@);
    assert("https://"@ + "ghcr.io"@ + "/v2/"@ =~= "https://ghcr.io/v2/"@);
}

/// The request for an official image of Docker Hub: a name without a `/`.
pub proof fn law_official_image_request(
    request: DigestRequest,
    name: Seq<char>,
    tag: Seq<char>,
)
    requires
        !name.contains('/'),
        !name.contains(':'),
        !tag.contains(':'),
        asks_for(request, name + seq![':'] + tag) || (asks_for(request, name) && tag
            == "latest"@),
    ensures
        request.url@ == "https://registry.hub.docker.com/v2/library/"@ + name + "/manifests/"@
            + tag,
        request.accept@ == "application/vnd.docker.distribution.manifest.v2+json"@,
        request.kind == RegistryKind::DockerHub,
        request.registry@ == "docker.io"@,
{
    lemma_tagged(name, tag);
    lemma_last_of(name, ':');
    lemma_first_of(name, '/');
    lemma_hosts();
    assert(request.url@ =~= ("https://"@ + "registry.hub.docker.com"@ + "/v2/"@) + "library/"@
        + name + "/manifests/"@ + tag);
}

/// The request for an image in a namespace of Docker Hub: the first component
/// of the name is no registry.
pub proof fn law_namespaced_image_request(
    request: DigestRequest,
    namespace: Seq<char>,
    rest: Seq<char>,
    tag: Seq<char>,
)
    requires
        !names_registry(namespace),
        !namespace.contains('/'),
        !rest.contains(':'),
        !tag.contains(':'),
        asks_for(request, namespace + seq!['/'] + rest + seq![':'] + tag) || (asks_for(
            request,
            namespace + seq!['/'] + rest,
        ) && tag == "latest"@),
    ensures
        request.url@ == "https://registry.hub.docker.com/v2/"@ + namespace + seq!['/'] + rest
            + "/manifests/"@ + tag,
        request.accept@ == "application/vnd.docker.distribution.manifest.v2+json"@,
        request.kind == RegistryKind::DockerHub,
        request.registry@ == "docker.io"@,
{
    let name = namespace + seq!['/'] + rest;
    lemma_names_registry(namespace);
    lemma_tagged(name, tag);
    lemma_hosts();
    assert(!name.contains(':')) by {
        if name.contains(':') {
            let k = choose|k: int| 0 <= k < name.len() && name[k] == ':';
            if k < namespace.len() {
                assert(namespace[k] == ':');
            } else {
                assert(rest[k - namespace.len() - 1] == ':');
            }
        }
    }
    lemma_last_of(name, ':');
    lemma_first_component(namespace, rest);
    assert(request.url@ =~= ("https://"@ + "registry.hub.docker.com"@ + "/v2/"@) + namespace
        + seq!['/'] + rest + "/manifests/"@ + tag);
}

proof fn lemma_first_component(first: Seq<char>, rest: Seq<char>)
    requires
        !first.contains('/'),
    ensures
        first_of(first + seq!['/'] + rest, '/') == first.len(),
        (first + seq!['/'] + rest).take(first.len() as int) == first,
        (first + seq!['/'] + rest).skip(first.len() as int) == seq!['/'] + rest,
{
    let name = first + seq!['/'] + rest;
    let slash = first.len() as int;
    assert forall|k: int| 0 <= k < slash implies name[k] != '/' by {
        assert(name[k] == first[k]);
        assert(first.contains(first[k]));
    }
    lemma_first_of_is(name, '/', slash);
    assert(name.take(slash) =~= first);
    assert(name.skip(slash) =~= seq!['/'] + rest);
}

/// The request for an image of another registry: the first component of the
/// name is one. Further slashes behind it are passed over.
pub proof fn law_registry_image_request(
    request: DigestRequest,
    registry: Seq<char>,
    slashes: nat,
    repository: Seq<char>,
    tag: Seq<char>,
)
    requires
        names_registry(registry),
        registry != "docker.io"@,
        !registry.contains('/'),
        repository.len() == 0 || repository[0] != '/',
        !tag.contains(':'),
        asks_for(
            request,
            registry + seq!['/'] + (Seq::new(slashes, |k: int| '/') + repository) + seq![':']
                + tag,
        ),
    ensures
        request.registry@ == registry,
        request.url@ == "https://"@ + registry + "/v2/"@ + repository + "/manifests/"@ + tag,
        request.accept@ == "application/vnd.oci.image.manifest.v1+json"@,
        request.kind == if registry == "ghcr.io"@ {
            RegistryKind::GitHub
        } else {
            RegistryKind::Other
        },
{
    let more = Seq::new(slashes, |k: int| '/') + repository;
    let name = registry + seq!['/'] + more;
    lemma_names_registry(registry);
    lemma_hosts();
    reveal_strlit("");
    lemma_tagged(name, tag);
    lemma_first_component(registry, more);
    lemma_trim_start_matches(slashes + 1, repository, '/');
    assert(seq!['/'] + more =~= Seq::new(slashes + 1, |k: int| '/') + repository);
    assert(trim_start_matches(name.skip(registry.len() as int), '/') == repository);
}

/// An image whose name begins with `docker.io/` is asked for at Docker Hub.
pub proof fn law_docker_io_request(
    request: DigestRequest,
    repository: Seq<char>,
    tag: Seq<char>,
)
    requires
        repository.len() == 0 || repository[0] != '/',
        !tag.contains(':'),
        asks_for(request, "docker.io"@ + seq!['/'] + repository + seq![':'] + tag),
    ensures
        request.url@ == "https://registry.hub.docker.com/v2/"@ + repository + "/manifests/"@ + tag,
        request.accept@ == "application/vnd.docker.distribution.manifest.v2+json"@,
        request.kind == RegistryKind::DockerHub,
{
    let registry = "docker.io"@;
    let name = registry + seq!['/'] + repository;
    reveal_strlit("docker.io");
    assert(registry[6] == '.');
    assert(!registry.contains('/'));
    lemma_names_registry(registry);
    lemma_hosts();
    lemma_tagged(name, tag);
    lemma_first_component(registry, repository);
    lemma_trim_start_matches(1, repository, '/');
    assert(seq!['/'] + repository =~= Seq::new(1, |k: int| '/') + repository);
    assert(request.url@ =~= ("https://"@ + "registry.hub.docker.com"@ + "/v2/"@) + repository
        + "/manifests/"@ + tag);
}

/// A digest comes from an answer that reports success and has the header, and
/// it is what the header holds.
pub proof fn law_digest_is_that_of_the_header(
    success: bool,
    header: Option<String>,
    digest: Result<String, DigestError>,
)
    requires
        answer_gives(success, header, digest),
    ensures
        digest is Ok <==> success && header is Some,
        digest matches Ok(d) ==> Some(d) == header,
        !success ==> digest == Err::<String, DigestError>(DigestError::Refused),
        success && header is None ==> digest == Err::<String, DigestError>(DigestError::NoDigest),
{
}

/// The path of a socket is what follows `unix://`; anything else is taken as it
/// stands.
pub proof fn law_socket_path(path: Seq<char>)
    ensures
        socket_path_of("unix://"@ + path) == path,
        (forall|rest: Seq<char>| path != #[trigger] ("unix://"@ + rest)) ==> socket_path_of(path)
            == path,
{
    let whole = "unix://"@ + path;
    assert(whole.subrange(0, "unix://"@.len() as int) =~= "unix://"@);
    assert(whole.skip("unix://"@.len() as int) =~= path);
    if "unix://"@.is_prefix_of(path) {
        let rest = path.skip("unix://"@.len() as int);
        assert(path =~= "unix://"@ + rest);
    }
}

/// The registries that are known: Docker Hub, by its name or by none, and that
/// of GitHub.
pub proof fn law_known_registries(registry: Seq<char>)
    ensures
        registry_kind(registry) == RegistryKind::DockerHub <==> registry == "docker.io"@
            || registry.len() == 0,
        registry_kind(registry) == RegistryKind::GitHub <==> registry == "ghcr.io"@,
{
    lemma_hosts();
    reveal_strlit("");
    reveal_strlit("ghcr.io");
    if registry.len() == 0 {
        assert(registry =~= ""@);
    }
}

} // verus!
