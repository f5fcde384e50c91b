use snarf::duration::Duration;
use snarf::system::Timestamp;
use snarf::updatecheck::{
    cache_path, command_from_cached_state, compare_versions, decide_status, detect_install_type,
    disabled, finish_status, format_notice, get_status, is_version_checkable, latest_release,
    mark_notified, normalize_version, release_api_url, release_url, render_command,
    should_notify, update_command_override, CacheState, Install, Options, ReleaseInfo,
    UpdateStatus,
};

#[test]
fn normalizes_release_tags() {
    assert_eq!(normalize_version("v1.2.3"), "1.2.3");
    assert_eq!(normalize_version("  1.2.3  "), "1.2.3");
}

#[test]
fn compares_semver_versions() {
    assert_eq!(compare_versions("0.1.0", "0.2.0"), -1);
    assert_eq!(compare_versions("1.0.0", "1.0.0"), 0);
    assert_eq!(compare_versions("2.0.0", "1.0.0"), 1);
}

#[test]
fn versions_compare_the_other_way_round() {
    let versions = ["1.0.0-alpha", "1.0.0", "v1.2.3", "1.10.0", "2.0.0+a", "2.0.0+b", "x"];
    for a in versions {
        for b in versions {
            assert_eq!(compare_versions(a, b), -compare_versions(b, a), "{a} {b}");
        }
        assert_eq!(compare_versions(a, a), 0);
    }
    assert_eq!(compare_versions("1.0.0-alpha", "1.0.0"), -1);
    assert_eq!(compare_versions("1.10.0", "1.2.3"), 1);
    assert_eq!(compare_versions("x", "1.0.0"), 0);
    assert!(is_version_checkable(" v0.2.1 "));
    assert!(!is_version_checkable("main"));
}

#[test]
fn formats_snarf_update_notice() {
    let notice = format_notice(&UpdateStatus {
        available: true,
        latest_version: "1.2.3".to_string(),
        command: "cargo install --git https://example.com/snarf --force".to_string(),
        ..UpdateStatus::default()
    });
    assert_eq!(
        notice,
        "A newer snarf is available: 1.2.3\nUpdate: cargo install --git https://example.com/snarf --force"
    );
}

#[test]
fn the_notice_falls_back_to_the_release_page() {
    let mut status = UpdateStatus {
        available: true,
        latest_version: "1.2.3".to_string(),
        release_url: "https://r".to_string(),
        ..UpdateStatus::default()
    };
    assert_eq!(
        format_notice(&status),
        "A newer snarf is available: 1.2.3\nUpdate: https://r"
    );
    status.available = false;
    assert_eq!(format_notice(&status), "");
}

#[test]
fn cached_update_command_respects_current_override() {
    assert_eq!(
        command_from_cached_state("cached command", "override command", true),
        "override command"
    );
    assert_eq!(
        command_from_cached_state("cached command", "current command", false),
        "cached command"
    );
    assert_eq!(
        command_from_cached_state("", "current command", false),
        "current command"
    );
}

#[test]
fn releases_are_looked_up_at_the_repository() {
    assert_eq!(
        release_url(),
        "https://github.com/kdheepak/snarf/releases/latest"
    );
    assert_eq!(
        release_api_url(),
        "https://api.github.com/repos/kdheepak/snarf/releases/latest"
    );
    assert_eq!(cache_path("/c"), "/c/update-check.json");
}

#[test]
fn installations_are_told_apart() {
    let none: Option<String> = None;
    assert_eq!(detect_install_type(&none, "/opt/Homebrew/bin/snarf"), "homebrew");
    assert_eq!(detect_install_type(&none, "/usr/Cellar/x"), "homebrew");
    assert_eq!(detect_install_type(&none, "/home/u/.cargo/bin/snarf"), "cargo");
    assert_eq!(detect_install_type(&none, "/x/cargo/bin/snarf"), "cargo");
    assert_eq!(detect_install_type(&none, "/usr/bin/snarf"), "manual");
    assert_eq!(detect_install_type(&none, "C:\\snarf.exe"), "manual");
    assert_eq!(detect_install_type(&none, "/usr/bin/other"), "unknown");
    let forced = Some(" CARGO ".to_string());
    assert_eq!(detect_install_type(&forced, "/usr/bin/snarf"), "cargo");
    let forced = Some("nix".to_string());
    assert_eq!(detect_install_type(&forced, "/usr/bin/snarf"), "manual");
}

#[test]
fn commands_fit_the_installation() {
    assert_eq!(
        render_command("cargo", &None),
        "cargo install --git https://github.com/kdheepak/snarf --force"
    );
    assert_eq!(render_command("manual", &None), release_url());
    assert_eq!(render_command("cargo", &Some("do it".to_string())), "do it");
    assert_eq!(
        update_command_override(&Some(" do it ".to_string())),
        Some("do it".to_string())
    );
    assert_eq!(update_command_override(&Some("  ".to_string())), None);
    assert_eq!(update_command_override(&None), None);
    let install = Install::detect(&None, "/usr/bin/snarf", &Some("x".to_string()));
    assert_eq!(install.install_type, "manual");
    assert_eq!(install.command, "x");
    assert!(install.overridden);
}

#[test]
fn releases_need_a_version() {
    let release = latest_release("v1.2.3", "").unwrap();
    assert_eq!(release.version, "1.2.3");
    assert_eq!(release.url, release_url());
    assert_eq!(latest_release("v1.2.3", "https://h").unwrap().url, "https://h");
    assert_eq!(
        latest_release("nightly", "").unwrap_err(),
        "latest release version is not semver"
    );
}

fn at(hours: i64) -> Timestamp {
    Timestamp {
        secs: 1_700_000_000 + hours * 3600,
        nanos: 5,
    }
}

fn options(version: &str, allow_network: bool) -> Options {
    Options {
        current_version: version.to_string(),
        allow_network,
        timeout: Duration::from_secs(1),
    }
}

fn install() -> Install {
    Install::detect(&None, "/usr/bin/snarf", &None)
}

fn state(checked: Option<Timestamp>, failed: Option<Timestamp>) -> CacheState {
    CacheState {
        schema_version: 1,
        last_checked_at: checked,
        last_check_failed_at: failed,
        latest_version: "v9.0.0".to_string(),
        ..CacheState::default()
    }
}

#[test]
fn versions_that_cannot_be_compared_are_not_looked_up() {
    let status = get_status(&options("dev", true), &install(), &None, &at(0)).unwrap();
    assert_eq!(status.source, "none");
    assert!(!status.available);
    assert_eq!(status.release_url, release_url());
}

#[test]
fn fresh_states_answer_for_a_day() {
    let cached = Some(state(Some(at(0)), None));
    let status = get_status(&options("0.2.1", true), &install(), &cached, &at(23)).unwrap();
    assert_eq!(status.source, "cache");
    assert!(status.available);
    assert!(!status.cache_stale);
    assert_eq!(status.latest_version, "9.0.0");
    assert!(get_status(&options("0.2.1", true), &install(), &cached, &at(24)).is_none());
    let status = get_status(&options("0.2.1", false), &install(), &cached, &at(24)).unwrap();
    assert!(status.cache_stale);
}

#[test]
fn failures_are_not_repeated_for_six_hours() {
    let cached = Some(state(Some(at(0)), Some(at(30))));
    assert!(get_status(&options("0.2.1", true), &install(), &cached, &at(35)).is_some());
    assert!(get_status(&options("0.2.1", true), &install(), &cached, &at(36)).is_none());
}

#[test]
fn states_of_another_schema_do_not_answer() {
    let mut old = state(Some(at(0)), None);
    old.schema_version = 7;
    let cached = Some(old);
    assert!(get_status(&options("0.2.1", true), &install(), &cached, &at(1)).is_none());
    let status = get_status(&options("0.2.1", false), &install(), &cached, &at(1)).unwrap();
    assert_eq!(status.source, "none");
    assert!(get_status(&options("0.2.1", true), &install(), &None, &at(1)).is_none());
}

#[test]
fn a_look_that_succeeds_is_stored() {
    let mut cached = state(Some(at(0)), Some(at(1)));
    cached.last_notified_version = "8.0.0".to_string();
    let release = ReleaseInfo {
        version: "1.0.0".to_string(),
        url: "https://h".to_string(),
    };
    let (status, stored) = finish_status(
        &options("0.2.1", true),
        &install(),
        &Some(cached),
        &Some(release),
        &at(50),
    );
    assert_eq!(status.source, "live");
    assert!(status.available);
    assert!(!status.cache_stale);
    assert_eq!(status.release_url, "https://h");
    let stored = stored.unwrap();
    assert_eq!(stored.last_checked_at, Some(at(50)));
    assert_eq!(stored.last_check_failed_at, None);
    assert_eq!(stored.last_notified_version, "8.0.0");
    assert!(stored.update_available);
}

#[test]
fn a_look_that_fails_is_stored_with_what_was_known() {
    let (status, stored) = finish_status(
        &options("0.2.1", true),
        &install(),
        &Some(state(Some(at(0)), None)),
        &None,
        &at(50),
    );
    assert_eq!(status.source, "cache");
    assert!(status.cache_stale);
    assert_eq!(stored.unwrap().last_check_failed_at, Some(at(50)));
    let (status, stored) =
        finish_status(&options("0.2.1", true), &install(), &None, &None, &at(50));
    assert_eq!(status.source, "none");
    assert!(stored.is_none());
}

#[test]
fn a_release_is_told_of_once_a_day() {
    let status = UpdateStatus {
        available: true,
        latest_version: "9.0.0".to_string(),
        ..UpdateStatus::default()
    };
    assert!(should_notify(&status, false, &None, &at(0)));
    assert!(!should_notify(&status, true, &None, &at(0)));
    let told = mark_notified(&status, None, &at(0));
    assert_eq!(told.as_ref().unwrap().schema_version, 1);
    assert_eq!(told.as_ref().unwrap().latest_version, "9.0.0");
    assert!(!should_notify(&status, false, &told, &at(23)));
    assert!(should_notify(&status, false, &told, &at(24)));
    let newer = UpdateStatus {
        available: true,
        latest_version: "9.1.0".to_string(),
        ..UpdateStatus::default()
    };
    assert!(should_notify(&newer, false, &told, &at(1)));
    assert!(mark_notified(&UpdateStatus::default(), None, &at(0)).is_none());
    let mut unknown = told.unwrap();
    unknown.last_notified_at = None;
    assert!(should_notify(&status, false, &Some(unknown), &at(1)));
}

#[test]
fn notices_can_be_switched_off() {
    for value in ["1", "true", " YES ", "On"] {
        assert!(disabled(value), "{value}");
    }
    for value in ["", "0", "false", "off", "2"] {
        assert!(!disabled(value), "{value}");
    }
}

#[test]
fn what_is_stored_decides_whether_to_ask() {
    let now = Timestamp {
        secs: 1_700_000_000,
        nanos: 0,
    };
    let fresh = Some(state(Some(now), None));
    let status = decide_status(true, true, true, &install(), &fresh, &now).unwrap();
    assert!(status.available);
    assert_eq!(status.source, "cache");
    assert!(!decide_status(true, false, true, &install(), &fresh, &now).unwrap().available);
    assert_eq!(decide_status(false, true, true, &install(), &fresh, &now).unwrap().source, "none");
    assert!(decide_status(true, true, true, &install(), &None, &now).is_none());
    assert_eq!(decide_status(true, true, false, &install(), &None, &now).unwrap().source, "none");
}
