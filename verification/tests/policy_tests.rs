use nexus_curator::policy::RetentionDecision;
use nexus_curator::policy::decide;
use nexus_curator::version::normalize;

fn decision(candidate: &str, cutoff: &str) -> RetentionDecision {
    decide(&normalize(candidate).unwrap(), &normalize(cutoff).unwrap())
}

#[test]
fn candidate_equal_to_cutoff_is_kept() {
    assert_eq!(decision("1.5.0", "1.5.0"), RetentionDecision::Keep);
}

#[test]
fn candidate_one_patch_below_cutoff_is_deleted() {
    assert_eq!(decision("1.4.9", "1.5.0"), RetentionDecision::Delete);
}

#[test]
fn candidate_above_cutoff_is_kept() {
    assert_eq!(decision("1.5.1", "1.5.0"), RetentionDecision::Keep);
}

#[test]
fn prerelease_of_cutoff_is_deleted() {
    assert_eq!(decision("1.5.0-rc.1", "1.5.0"), RetentionDecision::Delete);
}
