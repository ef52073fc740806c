use termua::update::{
    check_result_for, highest_release_tag, highest_tag_among, is_newer_version, parse_version_tag,
    startup_update_after_check, startup_update_to_show, startup_update_with_suppression,
    CheckResult, StartupUpdate,
};

fn version_of(tag: &str) -> Option<semver::Version> {
    parse_version_tag(tag).map(|p| p.version().clone())
}

#[test]
fn parses_release_tags_and_compares_versions() {
    let version = semver::Version::new(1, 2, 3);
    assert_eq!(version_of("v1.2.3"), Some(version.clone()));
    assert_eq!(version_of("1.2.3"), Some(version));
    assert_eq!(version_of("release-1.2.3"), None);
    assert_eq!(version_of("1.2.3.4"), None);
    assert_eq!(version_of("1.2"), None);
    assert!(is_newer_version("0.1.5", "v0.1.6"));
    assert!(!is_newer_version("0.1.5", "v0.1.5"));
    assert!(!is_newer_version("0.1.5", "v0.1.4"));
}

#[test]
fn parsed_tags_remember_their_text() {
    assert_eq!(parse_version_tag("v2.0.0-rc.1").unwrap().as_str(), "2.0.0-rc.1");
    assert!(!is_newer_version("not-a-version", "v9.9.9"));
    assert!(!is_newer_version("1.0.0", "vv2.0.0"));
}

#[test]
fn finds_highest_release_tag_including_prereleases() {
    let body = r#"[
            {"tag_name":"v0.1.5"},
            {"tag_name":"v0.2.0-beta.1"},
            {"tag_name":"not-a-version"}
        ]"#;
    assert_eq!(highest_release_tag(body).as_deref(), Some("v0.2.0-beta.1"));
    assert!(is_newer_version("0.1.5", "v0.2.0-beta.1"));
}

#[test]
fn highest_tag_among_skips_missing_and_unversioned_tags() {
    let tags = vec![
        Some("v0.1.5".to_string()),
        Some("v0.2.0-beta.1".to_string()),
        Some("not-a-version".to_string()),
        None,
    ];
    assert_eq!(highest_tag_among(&tags).as_deref(), Some("v0.2.0-beta.1"));
}

#[test]
fn release_list_that_is_not_json_has_no_tag() {
    assert_eq!(highest_release_tag("not json"), None);
    assert_eq!(highest_release_tag(r#"{"tag_name":"v1.0.0"}"#), None);
    assert_eq!(highest_release_tag(r#"[{"name":"v1.0.0"}, {"tag_name": 3}]"#), None);
    assert_eq!(highest_release_tag("[]"), None);
}

#[test]
fn highest_release_tag_prefers_the_later_of_equal_versions() {
    let tags = vec![Some("v1.0.0".to_string()), Some("1.0.0".to_string())];
    assert_eq!(highest_tag_among(&tags).as_deref(), Some("1.0.0"));
    let tags: Vec<Option<String>> = vec![None, Some("x".to_string())];
    assert_eq!(highest_tag_among(&tags), None);
    assert_eq!(
        highest_release_tag(r#"[{"tag_name":"v1.0.0"},{"tag_name":"1.0.0"}]"#).as_deref(),
        Some("1.0.0")
    );
}

#[test]
fn check_results_link_the_release_page() {
    assert_eq!(
        check_result_for("0.1.4", "v0.1.5".to_string()),
        CheckResult::UpdateAvailable {
            tag: "v0.1.5".to_string(),
            url: "https://github.com/iamazy/termua/releases/tag/v0.1.5".to_string(),
        }
    );
    assert_eq!(check_result_for("0.1.5", "v0.1.5".to_string()), CheckResult::UpToDate);
}

fn saved(tag: &str, suppressed: bool) -> StartupUpdate {
    StartupUpdate { tag: tag.to_string(), url: "https://example.com".to_string(), suppressed }
}

#[test]
fn cached_version_not_newer_than_current_is_ignored() {
    assert_eq!(startup_update_to_show(saved("v0.1.5", false), "0.1.5"), None);
    assert_eq!(
        startup_update_to_show(saved("v0.1.5", false), "0.1.4"),
        Some(CheckResult::UpdateAvailable {
            tag: "v0.1.5".to_string(),
            url: "https://example.com".to_string()
        })
    );
}

#[test]
fn suppressed_cached_version_is_not_loaded() {
    assert_eq!(startup_update_to_show(saved("v0.1.5", true), "0.1.4"), None);
}

#[test]
fn refreshing_same_release_preserves_suppression_but_new_release_resets_it() {
    let prev = saved("v0.1.5", true);
    assert!(startup_update_after_check(Some(&prev), "v0.1.5", "u").suppressed);
    assert!(!startup_update_after_check(Some(&prev), "v0.1.6", "u").suppressed);
    assert!(!startup_update_after_check(None, "v0.1.6", "u").suppressed);
    let kept = startup_update_with_suppression(Some(saved("v0.1.5", false)), "v0.1.5", "other", true);
    assert_eq!(kept, saved("v0.1.5", true));
    let fresh = startup_update_with_suppression(Some(saved("v0.1.4", false)), "v0.1.5", "u2", true);
    assert_eq!(fresh, StartupUpdate { tag: "v0.1.5".into(), url: "u2".into(), suppressed: true });
}
