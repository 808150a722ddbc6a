use nexus_curator::version::CanonicalVersion;
use nexus_curator::version::normalize;

fn ids(parts: &[&str]) -> Option<Vec<String>> {
    Some(parts.iter().map(|p| p.to_string()).collect())
}

#[test]
fn normalize_three_segments_is_plain() {
    let v = normalize("1.2.3").unwrap();
    assert_eq!(
        v,
        CanonicalVersion { major: 1, minor: 2, patch: 3, prerelease: None }
    );
}

#[test]
fn normalize_four_segments_matches_dashed_form() {
    let rewritten = normalize("1.2.3.45").unwrap();
    let direct = normalize("1.2.3-45").unwrap();
    assert_eq!(rewritten, direct);
    assert_eq!(rewritten.prerelease, ids(&["45"]));
}

#[test]
fn normalize_four_segments_alphanumeric_tail() {
    let v = normalize("7.0.1.build5").unwrap();
    assert_eq!(v.major, 7);
    assert_eq!(v.minor, 0);
    assert_eq!(v.patch, 1);
    assert_eq!(v.prerelease, ids(&["build5"]));
}

#[test]
fn normalize_is_lenient_about_prefixes() {
    let v = normalize("v1.2.3").unwrap();
    assert_eq!(
        v,
        CanonicalVersion { major: 1, minor: 2, patch: 3, prerelease: None }
    );
    let w = normalize("=2.0.0").unwrap();
    assert_eq!(w.major, 2);
}

#[test]
fn dotted_prerelease_counts_as_fourth_segment() {
    // "1.2.3-rc.1" splits at its three dots into four segments, so the
    // rewrite applies and yields the same version as "1.2.3-rc-1".
    let v = normalize("1.2.3-rc.1").unwrap();
    assert_eq!(v, normalize("1.2.3-rc-1").unwrap());
    assert_eq!(v.prerelease, ids(&["rc-1"]));
}

#[test]
fn normalize_rejects_unversioned_strings() {
    assert!(normalize("not-a-version").is_err());
    assert!(normalize("").is_err());
    assert!(normalize("1.2").is_err());
}

#[test]
fn normalize_rejects_overflowing_numeric_part() {
    assert!(normalize("99999999999999999999.0.0").is_err());
}
