use rawrr::docker::{
    classify_registry, digest_from_response, digest_request, parse_image_ref, socket_path,
    DigestError, RegistryKind,
};

#[test]
fn test_parse_docker_hub_default() {
    let (reg, repo, tag) = parse_image_ref("nginx").unwrap();
    assert_eq!(reg, "docker.io");
    assert_eq!(repo, "library/nginx");
    assert_eq!(tag, "latest");
}

#[test]
fn test_parse_docker_hub_with_tag() {
    let (reg, repo, tag) = parse_image_ref("nginx:1.25").unwrap();
    assert_eq!(reg, "docker.io");
    assert_eq!(repo, "library/nginx");
    assert_eq!(tag, "1.25");
}

#[test]
fn test_parse_docker_hub_with_namespace() {
    let (reg, repo, tag) = parse_image_ref("myorg/myapp:v1.2.3").unwrap();
    assert_eq!(reg, "docker.io");
    assert_eq!(repo, "myorg/myapp");
    assert_eq!(tag, "v1.2.3");
}

#[test]
fn test_parse_ghcr() {
    let (reg, repo, tag) = parse_image_ref("ghcr.io/myorg/myapp:latest").unwrap();
    assert_eq!(reg, "ghcr.io");
    assert_eq!(repo, "myorg/myapp");
    assert_eq!(tag, "latest");
}

fn parts(image: &str) -> (String, String, String) {
    parse_image_ref(image).unwrap()
}

fn triple(a: &str, b: &str, c: &str) -> (String, String, String) {
    (a.to_string(), b.to_string(), c.to_string())
}

#[test]
fn unusual_references() {
    assert_eq!(parts(""), triple("docker.io", "library/", "latest"));
    assert_eq!(parts("localhost:5000/app:1"), triple("localhost:5000", "app", "1"));
    assert_eq!(parts("localhost:5000/app"), triple("docker.io", "library/localhost", "5000/app"));
    assert_eq!(parts("r.io///a/b"), triple("r.io", "a/b", "latest"));
    assert_eq!(parts("a::b"), triple("docker.io", "library/a:", "b"));
    assert_eq!(parts("/x"), triple("docker.io", "/x", "latest"));
    assert_eq!(parts("é/ü:ñ"), triple("docker.io", "é/ü", "ñ"));
    assert_eq!(parts("r.io/:t"), triple("r.io", "", "t"));
}

#[test]
fn full_reference_reads_back() {
    assert_eq!(
        parts("quay.io/org/app:v2"),
        triple("quay.io", "org/app", "v2")
    );
}

#[test]
fn requests_for_digests() {
    let hub = digest_request("nginx").unwrap();
    assert_eq!(hub.kind, RegistryKind::DockerHub);
    assert_eq!(hub.url, "https://registry.hub.docker.com/v2/library/nginx/manifests/latest");
    assert_eq!(hub.accept, "application/vnd.docker.distribution.manifest.v2+json");
    let github = digest_request("ghcr.io/o/a:t").unwrap();
    assert_eq!(github.kind, RegistryKind::GitHub);
    assert_eq!(github.url, "https://ghcr.io/v2/o/a/manifests/t");
    assert_eq!(github.accept, "application/vnd.oci.image.manifest.v1+json");
    let other = digest_request("quay.io/o/a:t").unwrap();
    assert_eq!(other.kind, RegistryKind::Other);
    assert_eq!(other.registry, "quay.io");
    assert_eq!(other.url, "https://quay.io/v2/o/a/manifests/t");
    assert_eq!(other.accept, "application/vnd.oci.image.manifest.v1+json");
    assert_eq!(classify_registry(""), RegistryKind::DockerHub);
}

#[test]
fn answers_of_registries() {
    assert_eq!(digest_from_response(true, Some("d".to_string())), Ok("d".to_string()));
    assert_eq!(digest_from_response(true, None), Err(DigestError::NoDigest));
    assert_eq!(digest_from_response(false, Some("d".to_string())), Err(DigestError::Refused));
    assert_eq!(digest_from_response(false, None), Err(DigestError::Refused));
}

#[test]
fn socket_paths() {
    assert_eq!(socket_path("unix:///var/run/docker.sock"), "/var/run/docker.sock");
    assert_eq!(socket_path("unix://"), "");
    assert_eq!(socket_path("unix:/"), "unix:/");
    assert_eq!(socket_path("tcp://host:2375"), "tcp://host:2375");
}
