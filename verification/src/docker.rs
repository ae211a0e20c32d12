//! Containers, image references, and where a registry tells the digest of an
//! image.

use crate::name_map::NameMap;
use crate::text::{
    find_char, first_of, last_of, lemma_first_of, lemma_first_of_is, lemma_last_of,
    lemma_last_of_is, rfind_char, same_text, trim_start_matches, trim_text_start_matches,
};
use crate::time::Timestamp;
use vstd::prelude::*;

verus! {

/// A running container.
#[derive(Debug, Clone)]
pub struct Container {
    pub id: String,
    pub names: Vec<String>,
    pub image: String,
    pub image_id: String,
    pub labels: NameMap<String>,
}

/// An image as a registry describes it.
#[derive(Debug, Clone)]
pub struct ImageInfo {
    pub digest: String,
    pub created: Timestamp,
}

/// Text is not an image reference. As it stands, all text is one.
#[derive(Debug, Clone, Copy)]
pub struct ImageRefError;

/// The part of an image reference before its tag.
pub open spec fn image_name(image: Seq<char>) -> Seq<char> {
    let colon = last_of(image, ':');
    if colon >= 0 {
        image.take(colon)
    } else {
        image
    }
}

/// The tag of an image reference: what follows the last `:`.
pub open spec fn image_tag(image: Seq<char>) -> Seq<char> {
    let colon = last_of(image, ':');
    if colon >= 0 {
        image.skip(colon + 1)
    } else {
        "latest"@
    }
}

/// Whether the first component of an image name is a registry: it holds a `.`
/// or a `:`.
pub open spec fn is_registry(component: Seq<char>) -> bool {
    component.contains('.') || component.contains(':')
}

/// The registry and the repository that an image name denotes.
pub open spec fn image_place(name: Seq<char>) -> (Seq<char>, Seq<char>) {
    let slash = first_of(name, '/');
    if slash < name.len() {
        if is_registry(name.take(slash)) {
            (name.take(slash), trim_start_matches(name.skip(slash), '/'))
        } else {
            ("docker.io"@, name)
        }
    } else {
        ("docker.io"@, "library/"@ + name)
    }
}

/// Registry, repository and tag of an image reference.
pub open spec fn image_parts(image: Seq<char>) -> (Seq<char>, Seq<char>, Seq<char>) {
    let (registry, repository) = image_place(image_name(image));
    (registry, repository, image_tag(image))
}

/// Takes an image reference apart into registry, repository and tag.
pub fn parse_image_ref(image: &str) -> (parts: Result<(String, String, String), ImageRefError>)
    ensures
        parts matches Ok(p) && (p.0@, p.1@, p.2@) == image_parts(image@),
{
    proof {
        lemma_last_of(image@, ':');
    }
    let n: usize = image.unicode_len();
    let (name, tag): (&str, String) = match rfind_char(image, ':') {
        Some(colon) => {
            let name = image.substring_char(0, colon);
            let tag = image.substring_char(colon + 1, n);
            assert(name@ =~= image@.take(colon as int));
            assert(tag@ =~= image@.skip(colon + 1));
            (name, tag.to_owned())
        },
        None => (image, "latest".to_owned()),
    };
    assert(name@ == image_name(image@));
    proof {
        lemma_first_of(name@, '/');
    }
    let (registry, repository): (String, String) = match find_char(name, '/') {
        Some(slash) => {
            let m: usize = name.unicode_len();
            let first = name.substring_char(0, slash);
            let rest = name.substring_char(slash, m);
            assert(first@ =~= name@.take(slash as int));
            assert(rest@ =~= name@.skip(slash as int));
            proof {
                lemma_first_of(first@, '.');
                lemma_first_of(first@, ':');
            }
            if find_char(first, '.').is_some() || find_char(first, ':').is_some() {
                (first.to_owned(), trim_text_start_matches(rest, '/').to_owned())
            } else {
                ("docker.io".to_owned(), name.to_owned())
            }
        },
        None => {
            let mut repository: String = "library/".to_owned();
            repository.append(name);
            ("docker.io".to_owned(), repository)
        },
    };
    Ok((registry, repository, tag))
}

/// Which kind of registry an image comes from.
#[derive(Debug, Clone, Copy, PartialEq, Eq, Structural)]
pub enum RegistryKind {
    DockerHub,
    GitHub,
    Other,
}

/// A request for the digest of an image.
#[derive(Debug, Clone)]
pub struct DigestRequest {
    pub kind: RegistryKind,
    /// The registry as the image reference names it.
    pub registry: String,
    /// Where the manifest of the image is.
    pub url: String,
    /// The media type of manifest that is asked for.
    pub accept: String,
}

/// The kind of a registry.
pub open spec fn registry_kind(registry: Seq<char>) -> RegistryKind {
    if registry == "docker.io"@ || registry == ""@ {
        RegistryKind::DockerHub
    } else if registry == "ghcr.io"@ {
        RegistryKind::GitHub
    } else {
        RegistryKind::Other
    }
}

/// The host that serves the manifests of a registry.
pub open spec fn manifest_host(registry: Seq<char>) -> Seq<char> {
    match registry_kind(registry) {
        RegistryKind::DockerHub => "registry.hub.docker.com"@,
        RegistryKind::GitHub => "ghcr.io"@,
        RegistryKind::Other => registry,
    }
}

/// Where the manifest of an image is.
pub open spec fn manifest_url(
    registry: Seq<char>,
    repository: Seq<char>,
    tag: Seq<char>,
) -> Seq<char> {
    "https://"@ + manifest_host(registry) + "/v2/"@ + repository + "/manifests/"@ + tag
}

/// The media type of manifest that a registry is asked for.
pub open spec fn manifest_type(registry: Seq<char>) -> Seq<char> {
    match registry_kind(registry) {
        RegistryKind::DockerHub => "application/vnd.docker.distribution.manifest.v2+json"@,
        _ => "application/vnd.oci.image.manifest.v1+json"@,
    }
}

/// The kind of a registry.
pub fn classify_registry(registry: &str) -> (kind: RegistryKind)
    ensures
        kind == registry_kind(registry@),
{
    if same_text(registry, "docker.io") || same_text(registry, "") {
        RegistryKind::DockerHub
    } else if same_text(registry, "ghcr.io") {
        RegistryKind::GitHub
    } else {
        RegistryKind::Other
    }
}

/// Whether a request is the one for the digest of the image that a reference
/// denotes.
pub open spec fn asks_for(request: DigestRequest, image: Seq<char>) -> bool {
    let (registry, repository, tag) = image_parts(image);
    &&& request.kind == registry_kind(registry)
    &&& request.registry@ == registry
    &&& request.url@ == manifest_url(registry, repository, tag)
    &&& request.accept@ == manifest_type(registry)
}

/// The request for the digest of the image that a reference denotes.
pub fn digest_request(image_ref: &str) -> (request: Result<DigestRequest, ImageRefError>)
    ensures
        request matches Ok(r) && asks_for(r, image_ref@),
{
    let (registry, repository, tag): (String, String, String) = parse_image_ref(image_ref)?;
    let kind: RegistryKind = classify_registry(registry.as_str());
    let mut url: String = "https://".to_owned();
    match kind {
        RegistryKind::DockerHub => {
            url.append("registry.hub.docker.com");
        },
        RegistryKind::GitHub => {
            url.append("ghcr.io");
        },
        RegistryKind::Other => {
            url.append(registry.as_str());
        },
    }
    url.append("/v2/");
    url.append(repository.as_str());
    url.append("/manifests/");
    url.append(tag.as_str());
    let accept: String = match kind {
        RegistryKind::DockerHub => "application/vnd.docker.distribution.manifest.v2+json".to_owned(),
        RegistryKind::GitHub => "application/vnd.oci.image.manifest.v1+json".to_owned(),
        RegistryKind::Other => "application/vnd.oci.image.manifest.v1+json".to_owned(),
    };
    Ok(DigestRequest { kind, registry, url, accept })
}

/// Why a registry gave no digest.
#[derive(Debug, Clone, Copy, PartialEq, Eq, Structural)]
pub enum DigestError {
    /// The registry did not answer with success.
    Refused,
    /// The answer had no readable `Docker-Content-Digest` header.
    NoDigest,
}

/// Whether this is the digest that an answer of a registry gives.
pub open spec fn answer_gives(
    success: bool,
    header: Option<String>,
    digest: Result<String, DigestError>,
) -> bool {
    match digest {
        Ok(d) => success && header == Some(d),
        Err(DigestError::Refused) => !success,
        Err(DigestError::NoDigest) => success && header is None,
    }
}

/// The digest that an answer of a registry gives: whether it reports success,
/// and its `Docker-Content-Digest` header, if that is there and is text.
pub fn digest_from_response(success: bool, header: Option<String>) -> (digest: Result<
    String,
    DigestError,
>)
    ensures
        answer_gives(success, header, digest),
{
    if !success {
        return Err(DigestError::Refused);
    }
    match header {
        Some(d) => Ok(d),
        None => Err(DigestError::NoDigest),
    }
}

/// The path of the socket that a Docker host setting denotes: what follows
/// `unix://`, or the whole setting.
pub open spec fn socket_path_of(docker_host: Seq<char>) -> Seq<char> {
    if "unix://"@.is_prefix_of(docker_host) {
        docker_host.skip("unix://"@.len() as int)
    } else {
        docker_host
    }
}

/// The path of the socket that a Docker host setting denotes.
pub fn socket_path(docker_host: &str) -> (path: String)
    ensures
        path@ == socket_path_of(docker_host@),
{
    let prefix: &str = "unix://";
    let k: usize = prefix.unicode_len();
    let n: usize = docker_host.unicode_len();
    if k <= n {
        let start = docker_host.substring_char(0, k);
        if same_text(start, prefix) {
            let rest = docker_host.substring_char(k, n);
            assert(rest@ =~= docker_host@.skip(k as int));
            return rest.to_owned();
        }
    }
    docker_host.to_owned()
}

/// A full reference, with a registry, a repository and a tag, is taken apart
/// into these.
pub proof fn law_full_reference_round_trip(
    registry: Seq<char>,
    repository: Seq<char>,
    tag: Seq<char>,
)
    requires
        is_registry(registry),
        !registry.contains('/'),
        repository.len() == 0 || repository[0] != '/',
        !tag.contains(':'),
    ensures
        image_parts(registry + seq!['/'] + repository + seq![':'] + tag) == (
            registry,
            repository,
            tag,
        ),
{
    let name = registry + seq!['/'] + repository;
    let image = name + seq![':'] + tag;
    let colon = name.len() as int;
    assert forall|k: int| colon < k < image.len() implies image[k] != ':' by {
        assert(image[k] == tag[k - colon - 1]);
        assert(tag.contains(tag[k - colon - 1]));
    }
    lemma_last_of_is(image, ':', colon);
    assert(image.take(colon) =~= name);
    assert(image.skip(colon + 1) =~= tag);
    let slash = registry.len() as int;
    assert forall|k: int| 0 <= k < slash implies name[k] != '/' by {
        assert(name[k] == registry[k]);
        assert(registry.contains(registry[k]));
    }
    lemma_first_of_is(name, '/', slash);
    assert(name.take(slash) =~= registry);
    assert(name.skip(slash).drop_first() =~= repository);
    assert(trim_start_matches(name.skip(slash), '/') == trim_start_matches(repository, '/'));
}

/// A bare name is an official image of Docker Hub, and without a tag the tag
/// is `latest`.
pub proof fn law_bare_name_is_official_image(name: Seq<char>)
    requires
        !name.contains('/'),
        !name.contains(':'),
    ensures
        image_parts(name) == ("docker.io"@, "library/"@ + name, "latest"@),
{
    lemma_last_of(name, ':');
    lemma_first_of(name, '/');
}

/// A name whose first component is no registry is on Docker Hub as it stands.
pub proof fn law_namespaced_name_is_on_docker_hub(
    namespace: Seq<char>,
    rest: Seq<char>,
    tag: Seq<char>,
)
    requires
        !is_registry(namespace),
        !namespace.contains('/'),
        !tag.contains(':'),
    ensures
        image_parts(namespace + seq!['/'] + rest + seq![':'] + tag) == (
            "docker.io"@,
            namespace + seq!['/'] + rest,
            tag,
        ),
{
    let name = namespace + seq!['/'] + rest;
    let image = name + seq![':'] + tag;
    let colon = name.len() as int;
    assert forall|k: int| colon < k < image.len() implies image[k] != ':' by {
        assert(image[k] == tag[k - colon - 1]);
        assert(tag.contains(tag[k - colon - 1]));
    }
    lemma_last_of_is(image, ':', colon);
    assert(image.take(colon) =~= name);
    assert(image.skip(colon + 1) =~= tag);
    let slash = namespace.len() as int;
    assert forall|k: int| 0 <= k < slash implies name[k] != '/' by {
        assert(name[k] == namespace[k]);
        assert(namespace.contains(namespace[k]));
    }
    lemma_first_of_is(name, '/', slash);
    assert(name.take(slash) =~= namespace);
}

} // verus!
