use tamp_lib::update_check::{choose_update, newer_version, parse_tag, Release};

fn v(s: &str) -> String {
    s.to_string()
}

#[test]
fn parse_tag_strips_leading_v_and_keeps_prerelease() {
    assert_eq!(parse_tag("v0.3.0-beta.7"), Some(v("0.3.0-beta.7")));
    assert_eq!(parse_tag("0.3.0-beta.7"), Some(v("0.3.0-beta.7")));
    assert_eq!(parse_tag("v1.2.3"), Some(v("1.2.3")));
}

#[test]
fn parse_tag_rejects_non_semver() {
    assert_eq!(parse_tag("nightly"), None);
    assert_eq!(parse_tag("v1.2"), None);
    assert_eq!(parse_tag(""), None);
    assert_eq!(parse_tag("vv1.2.3"), None);
}

#[test]
fn picks_highest_across_the_list_including_prereleases() {
    let tags = ["v0.1.0", "v0.2.0", "v0.3.0-beta.7", "v0.2.5"];
    assert_eq!(
        newer_version(&tags, "0.2.0"),
        Some(v("0.3.0-beta.7")),
        "newest prerelease in the list should be chosen"
    );
}

#[test]
fn prerelease_is_newer_than_older_stable() {
    assert_eq!(
        newer_version(&["v0.3.0-beta.7"], "0.2.0"),
        Some(v("0.3.0-beta.7"))
    );
}

#[test]
fn stable_is_newer_than_its_own_prerelease() {
    assert_eq!(
        newer_version(&["v0.3.0"], "0.3.0-beta.7"),
        Some(v("0.3.0"))
    );
    assert_eq!(newer_version(&["v0.3.0-beta.7"], "0.3.0-beta.7"), None);
}

#[test]
fn none_when_installed_is_up_to_date_or_ahead() {
    assert_eq!(newer_version(&["v0.2.0", "v0.1.0"], "0.2.0"), None);
    assert_eq!(newer_version(&["v0.2.0"], "0.3.0"), None);
}

#[test]
fn ignores_non_semver_tags_without_breaking() {
    let tags = ["nightly", "v0.3.0", "latest"];
    assert_eq!(newer_version(&tags, "0.2.0"), Some(v("0.3.0")));
    assert_eq!(newer_version(&[], "0.2.0"), None);
}

fn release(tag: &str, draft: bool) -> Release {
    Release {
        tag_name: tag.to_string(),
        html_url: format!("https://example.test/{tag}"),
        body: Some(format!("notes for {tag}")),
        draft,
    }
}

#[test]
fn choose_update_skips_drafts_and_maps_url_and_notes() {
    let releases = vec![
        release("v0.4.0", true),
        release("v0.3.0-beta.7", false),
        release("v0.2.0", false),
    ];
    let got = choose_update(&releases, "0.2.0").unwrap();
    assert_eq!(got.version, "0.3.0-beta.7");
    assert_eq!(got.url, "https://example.test/v0.3.0-beta.7");
    assert_eq!(got.notes.as_deref(), Some("notes for v0.3.0-beta.7"));
}

#[test]
fn choose_update_returns_none_when_up_to_date() {
    let releases = vec![release("v0.2.0", false), release("v0.1.0", false)];
    assert!(choose_update(&releases, "0.2.0").is_none());
}

#[test]
fn choose_update_ignores_a_draft_newer_than_everything() {
    let releases = vec![release("v0.9.0", true), release("v0.2.0", false)];
    assert!(choose_update(&releases, "0.2.0").is_none());
}

#[test]
fn choose_update_maps_a_bare_tag_and_missing_notes() {
    let mut bare = release("0.5.0", false);
    bare.body = None;
    let releases = vec![release("v0.4.0", false), bare];
    let got = choose_update(&releases, "0.2.0").unwrap();
    assert_eq!(got.version, "0.5.0");
    assert_eq!(got.url, "https://example.test/0.5.0");
    assert_eq!(got.notes, None);
}
