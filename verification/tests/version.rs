use bindle_search::search::version_compare;
use bindle_search::version::admits;
use semver::{Version, VersionReq};

#[test]
fn test_version_comparisons() {
    // Do not need an exhaustive list of matches -- just a sampling to make sure
    // the outer logic is correct.
    let reqs = vec!["= 1.2.3", "1.2.3", "1.2.3", "^1.1", "~1.2", ""];

    reqs.iter().for_each(|r| {
        if !version_compare("1.2.3", r) {
            panic!("Should have passed: {}", r)
        }
    });

    // Again, we do not need to test the SemVer crate -- just make sure some
    // outliers and obvious cases are covered.
    let reqs = vec!["2", "%^&%^&%"];
    reqs.iter()
        .for_each(|r| assert!(!version_compare("1.2.3", r)));

    // Finally, test the outliers having to do with version strings
    let vers = vec!["", "%^&%^&%"];
    vers.iter().for_each(|v| assert!(!version_compare(v, "^1")));
}

#[test]
fn caret_and_tilde_requirements_accept_a_later_patch() {
    assert!(version_compare("1.2.3", "^1.1"));
    assert!(version_compare("1.2.3", "~1.2"));
}

#[test]
fn requirement_on_another_major_version_rejects() {
    assert!(!version_compare("1.2.3", "2"));
}

#[test]
fn unreadable_requirement_rejects_a_good_version() {
    assert!(!version_compare("1.2.3", "%^&%^&%"));
    assert!(!version_compare("0.0.1", "not a requirement"));
    assert!(!version_compare("1.2.3", ">="));
}

#[test]
fn unreadable_requirement_rejects_an_unreadable_version() {
    assert!(!version_compare("%^&%^&%", "%^&%^&%"));
    assert!(!version_compare("", "%^&%^&%"));
}

#[test]
fn empty_requirement_accepts_everything() {
    assert!(version_compare("1.2.3", ""));
    assert!(version_compare("", ""));
    assert!(version_compare("%^&%^&%", ""));
    assert!(version_compare("1.2", ""));
}

#[test]
fn empty_version_is_rejected_by_a_requirement() {
    assert!(!version_compare("", "^1"));
    assert!(!version_compare("", "1.2.3"));
}

#[test]
fn unreadable_version_is_rejected_by_a_requirement() {
    assert!(!version_compare("%^&%^&%", "^1"));
    assert!(!version_compare("1.2", "^1"));
    assert!(!version_compare("one.two.three", ">=0.0.0"));
}

#[test]
fn a_requirement_of_blanks_is_not_the_empty_requirement() {
    assert!(!version_compare("1.2.3", " "));
}

#[test]
fn comparison_operators_are_honoured() {
    assert!(version_compare("1.2.3", ">1.2.2"));
    assert!(version_compare("1.2.3", ">=1.2.3"));
    assert!(version_compare("1.2.3", "<1.3.0"));
    assert!(version_compare("1.2.3", "<=1.2.3"));
    assert!(!version_compare("1.2.3", ">1.2.3"));
    assert!(!version_compare("1.2.3", "<1.2.3"));
    assert!(version_compare("1.2.3", "=1.2.3"));
    assert!(!version_compare("1.2.4", "=1.2.3"));
}

#[test]
fn compound_requirements_need_every_part() {
    assert!(version_compare("1.2.3", ">=1.0.0, <2.0.0"));
    assert!(!version_compare("2.0.0", ">=1.0.0, <2.0.0"));
    assert!(!version_compare("0.9.0", ">=1.0.0, <2.0.0"));
}

#[test]
fn prerelease_versions_need_a_prerelease_requirement() {
    assert!(!version_compare("1.2.3-alpha.1", "^1.2"));
    assert!(version_compare("1.2.3-alpha.2", ">=1.2.3-alpha.1"));
    assert!(version_compare("1.2.3+build.5", "^1.2"));
}

#[test]
fn admits_holds_a_read_version_against_the_requirement() {
    let wanted = VersionReq::parse("^1.1").unwrap();
    assert!(admits(&wanted, Version::parse("1.2.3")));
    assert!(!admits(&wanted, Version::parse("2.0.0")));
    assert!(!admits(&wanted, Version::parse("1.0.9")));
}

#[test]
fn admits_rejects_a_version_that_was_not_read() {
    let wanted = VersionReq::parse("*").unwrap();
    assert!(admits(&wanted, Version::parse("1.2.3")));
    assert!(!admits(&wanted, Version::parse("")));
    assert!(!admits(&wanted, Version::parse("1.2")));
    assert!(!admits(&wanted, Version::parse("%^&%^&%")));
}
