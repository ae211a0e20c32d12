use rawrr::digest::{is_sliceable, short_digest, truncate_digest};

#[test]
fn long_digests_are_cut_after_twelve_characters_of_the_hash() {
    let digest = "sha256:0123456789abcdef0123456789abcdef";
    assert_eq!(short_digest(digest), "sha256:0123456789ab");
    assert_eq!(truncate_digest(digest), "sha256:0123456789ab…");
}

#[test]
fn digests_without_a_label_are_cut_after_twelve_characters() {
    assert_eq!(short_digest("0123456789abcdef"), "0123456789ab");
    assert_eq!(truncate_digest("0123456789abcdef"), "0123456789ab…");
}

#[test]
fn short_digests_stay_whole() {
    for digest in ["", "sha256:", "sha256:abc123", "sha256:0123456789ab", "0123456789ab"] {
        assert!(is_sliceable(digest));
        assert_eq!(short_digest(digest), digest);
        assert_eq!(truncate_digest(digest), digest);
    }
}

#[test]
fn the_label_ends_at_the_first_colon() {
    assert_eq!(short_digest("a:b:c0123456789abc"), "a:b:c012345678");
    assert_eq!(truncate_digest(":0123456789abcdef"), ":0123456789ab…");
}

#[test]
fn cuts_inside_a_character_are_found() {
    assert!(!is_sliceable("sha256:0123456789aé"));
    assert!(is_sliceable("sha256:012345678aé"));
    assert!(is_sliceable("sha256:0123456789é"));
    assert_eq!(short_digest("sha256:0123456789éx"), "sha256:0123456789é");
    assert_eq!(truncate_digest("sha256:0123456789éx"), "sha256:0123456789é…");
}
