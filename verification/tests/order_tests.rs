use nexus_curator::order::VersionOrder;
use nexus_curator::version::CanonicalVersion;
use nexus_curator::order::compare;
use nexus_curator::version::normalize;

fn cmp(a: &str, b: &str) -> VersionOrder {
    compare(&normalize(a).unwrap(), &normalize(b).unwrap())
}

#[test]
fn patch_orders_numerically() {
    assert_eq!(cmp("1.2.3", "1.2.4"), VersionOrder::Less);
    assert_eq!(cmp("1.2.4", "1.2.3"), VersionOrder::Greater);
}

#[test]
fn equal_versions_compare_equal() {
    assert_eq!(cmp("1.2.3", "1.2.3"), VersionOrder::Equal);
}

#[test]
fn major_dominates_minor_and_patch() {
    assert_eq!(cmp("1.99.99", "2.0.0"), VersionOrder::Less);
}

#[test]
fn prerelease_orders_before_release() {
    assert_eq!(cmp("1.2.3-rc1", "1.2.3"), VersionOrder::Less);
    assert_eq!(cmp("1.2.3", "1.2.3-rc1"), VersionOrder::Greater);
}

#[test]
fn numeric_identifier_below_alphanumeric() {
    assert_eq!(cmp("1.2.3-1", "1.2.3-alpha"), VersionOrder::Less);
}

#[test]
fn numeric_identifiers_compare_by_value() {
    assert_eq!(cmp("1.2.3.2", "1.2.3.10"), VersionOrder::Less);
    assert_eq!(cmp("1.2.3-01", "1.2.3-1"), VersionOrder::Equal);
}

#[test]
fn identifier_lists_compare_pairwise() {
    let ids = |parts: &[&str]| Some(parts.iter().map(|p| p.to_string()).collect::<Vec<_>>());
    let rc2 = CanonicalVersion { major: 1, minor: 2, patch: 3, prerelease: ids(&["rc", "2"]) };
    let rc10 = CanonicalVersion { major: 1, minor: 2, patch: 3, prerelease: ids(&["rc", "10"]) };
    assert_eq!(compare(&rc2, &rc10), VersionOrder::Less);
    assert_eq!(compare(&rc10, &rc2), VersionOrder::Greater);
}

#[test]
fn alphanumeric_identifiers_compare_lexically() {
    assert_eq!(cmp("1.2.3-alpha", "1.2.3-beta"), VersionOrder::Less);
}

#[test]
fn shorter_identifier_list_orders_first() {
    assert_eq!(cmp("1.2.3-rc", "1.2.3-rc.1"), VersionOrder::Less);
}

#[test]
fn four_segment_tags_order_like_their_prerelease() {
    assert_eq!(cmp("1.2.3.4", "1.2.3.10"), VersionOrder::Less);
    assert_eq!(cmp("1.2.3.4", "1.2.3"), VersionOrder::Less);
}
