use anyflipdl::update_checker::{
    compare_versions, evaluate_release, parse_version, strip_version_prefix, up_to_date,
};

#[test]
fn strip_prefix_v() {
    assert_eq!(strip_version_prefix("v1.2.3"), "1.2.3");
}

#[test]
fn strip_prefix_uppercase_v() {
    assert_eq!(strip_version_prefix("V2.0.0"), "2.0.0");
}

#[test]
fn strip_no_prefix() {
    assert_eq!(strip_version_prefix("1.0.0"), "1.0.0");
}

#[test]
fn parse_three_parts() {
    assert_eq!(parse_version("1.2.3"), vec![1, 2, 3]);
}

#[test]
fn parse_two_parts() {
    assert_eq!(parse_version("2.0"), vec![2, 0]);
}

#[test]
fn parse_single_part() {
    assert_eq!(parse_version("5"), vec![5]);
}

#[test]
fn compare_equal() {
    assert_eq!(compare_versions("1.0.0", "1.0.0"), 0);
}

#[test]
fn compare_patch_greater() {
    assert_eq!(compare_versions("1.0.1", "1.0.0"), 1);
}

#[test]
fn compare_minor_greater() {
    assert_eq!(compare_versions("1.1.0", "1.0.9"), 1);
}

#[test]
fn compare_major_greater() {
    assert_eq!(compare_versions("2.0.0", "1.9.9"), 1);
}

#[test]
fn compare_less_than() {
    assert_eq!(compare_versions("0.9.0", "1.0.0"), -1);
}

#[test]
fn compare_different_lengths_a_longer() {
    assert_eq!(compare_versions("1.0.1", "1.0"), 1);
}

#[test]
fn compare_different_lengths_b_longer() {
    assert_eq!(compare_versions("1.0", "1.0.1"), -1);
}

#[test]
fn compare_missing_parts_count_as_zero() {
    assert_eq!(compare_versions("1.0", "1.0.0"), 0);
    assert_eq!(compare_versions("1.0.0", "1.0"), 0);
    assert_eq!(compare_versions("2", "2.0.0"), 0);
    assert_eq!(compare_versions("1.0.0.1", "1.0"), 1);
}

#[test]
fn parse_version_skips_parts_that_are_not_numbers() {
    assert_eq!(parse_version("1.x.3"), vec![1, 3]);
    assert_eq!(parse_version("1.2.3-beta"), vec![1, 2]);
    assert_eq!(parse_version(""), Vec::<u64>::new());
}

#[test]
fn compare_is_antisymmetric_on_examples() {
    for (a, b) in [("1.2", "1.10"), ("2", "2.0"), ("0.0.1", "0.1")] {
        assert_eq!(compare_versions(a, b), -compare_versions(b, a));
    }
    assert_eq!(compare_versions("1.10", "1.9"), 1);
}

#[test]
fn release_newer_than_current_is_offered() {
    let r = evaluate_release("1.0.0", "v1.2.0", "https://example.invalid/r");
    assert!(r.update_available);
    assert_eq!(r.current_version, "1.0.0");
    assert_eq!(r.latest_version, "1.2.0");
    assert_eq!(r.download_url, Some("https://example.invalid/r".to_string()));
    let same = evaluate_release("1.2.0", "V1.2.0", "u");
    assert!(!same.update_available);
    assert_eq!(same.download_url, None);
    let none = up_to_date("3.1.4");
    assert!(!none.update_available);
    assert_eq!(none.latest_version, "3.1.4");
}

#[test]
fn compare_is_reflexive_and_transitive_on_examples() {
    assert_eq!(compare_versions("1.2.3", "1.2.3"), 0);
    assert_eq!(compare_versions("1.2", "1.10"), -1);
    assert_eq!(compare_versions("1.10", "2.0"), -1);
    assert_eq!(compare_versions("1.2", "2.0"), -1);
}

#[test]
fn release_api_address_and_agent() {
    assert_eq!(
        anyflipdl::update_checker::latest_release_url(),
        "https://api.github.com/repos/AnyflipDL/AnyflipDL/releases/latest"
    );
    assert_eq!(anyflipdl::update_checker::user_agent("1.0.0"), "AnyflipDL/1.0.0");
}
