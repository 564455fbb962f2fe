use ssl_proxy_manager::config::UpdateConfig;
use ssl_proxy_manager::update::{
    check_status, decide_update, evaluate_update, plan_check, CheckPlan, ParsedVersion, UpdateError,
    UpdateInfo,
};

fn update_cfg(ignore_prerelease: bool) -> UpdateConfig {
    UpdateConfig {
        enabled: true,
        server_url: "https://updates.example/check".to_string(),
        auto_check: true,
        timeout_ms: 3000,
        channel: None,
        ignore_prerelease,
    }
}

fn release(version: &str) -> UpdateInfo {
    UpdateInfo {
        latest_version: version.to_string(),
        download_url: "https://updates.example/dl".to_string(),
        release_notes: "notes".to_string(),
        is_mandatory: false,
    }
}

fn version(major: u64, minor: u64, patch: u64, pre: &str) -> Option<ParsedVersion> {
    Some(ParsedVersion { major, minor, patch, pre: pre.to_string(), build: String::new() })
}

#[test]
fn disabled_check_is_skipped_with_a_message() {
    let mut cfg = update_cfg(false);
    cfg.enabled = false;
    match plan_check("1.0.0", &cfg) {
        CheckPlan::Skip(r) => {
            assert!(!r.has_update);
            assert!(!r.is_prerelease);
            assert_eq!(r.current_version, "1.0.0");
            assert!(r.update_info.is_none());
            assert_eq!(r.error.as_deref(), Some("更新检查未启用或服务器地址未配置"));
        }
        CheckPlan::Fetch { .. } => panic!("a disabled check must not fetch"),
    }
    let mut cfg = update_cfg(false);
    cfg.server_url = String::new();
    assert!(matches!(plan_check("1.0.0", &cfg), CheckPlan::Skip(_)));
}

#[test]
fn timeout_defaults_to_ten_seconds() {
    let mut cfg = update_cfg(false);
    assert!(matches!(plan_check("1.0.0", &cfg), CheckPlan::Fetch { timeout_ms: 3000 }));
    cfg.timeout_ms = 0;
    assert!(matches!(plan_check("1.0.0", &cfg), CheckPlan::Fetch { timeout_ms: 10_000 }));
    cfg.timeout_ms = -5;
    assert!(matches!(plan_check("1.0.0", &cfg), CheckPlan::Fetch { timeout_ms: 10_000 }));
    cfg.timeout_ms = i32::MAX;
    assert!(matches!(plan_check("1.0.0", &cfg), CheckPlan::Fetch { timeout_ms: 2_147_483_647 }));
}

#[test]
fn only_success_statuses_are_accepted() {
    assert_eq!(check_status(200), Ok(()));
    assert_eq!(check_status(204), Ok(()));
    assert_eq!(check_status(299), Ok(()));
    assert_eq!(check_status(199), Err(UpdateError::ServerStatus(199)));
    assert_eq!(check_status(300), Err(UpdateError::ServerStatus(300)));
    assert_eq!(check_status(404), Err(UpdateError::ServerStatus(404)));
    assert_eq!(check_status(500), Err(UpdateError::ServerStatus(500)));
}

#[test]
fn newer_release_is_offered() {
    let r = evaluate_update("1.2.3", &update_cfg(false), release("1.10.0")).unwrap();
    assert!(r.has_update);
    assert!(!r.is_prerelease);
    assert_eq!(r.current_version, "1.2.3");
    assert_eq!(r.update_info.as_ref().unwrap().latest_version, "1.10.0");
    assert_eq!(r.update_info.as_ref().unwrap().download_url, "https://updates.example/dl");
    assert!(r.error.is_none());
}

#[test]
fn same_or_older_release_is_not_offered() {
    assert!(!evaluate_update("1.2.3", &update_cfg(false), release("1.2.3")).unwrap().has_update);
    assert!(!evaluate_update("2.0.0", &update_cfg(false), release("1.9.9")).unwrap().has_update);
    assert!(!evaluate_update("1.10.0", &update_cfg(false), release("1.9.0")).unwrap().has_update);
}

#[test]
fn prerelease_ordering_follows_semver() {
    let r = evaluate_update("1.0.0-alpha.2", &update_cfg(false), release("1.0.0-alpha.11")).unwrap();
    assert!(r.has_update && r.is_prerelease);
    let r = evaluate_update("1.0.0-rc.1", &update_cfg(false), release("1.0.0")).unwrap();
    assert!(r.has_update && !r.is_prerelease);
    let r = evaluate_update("1.0.0", &update_cfg(false), release("1.0.0-rc.1")).unwrap();
    assert!(!r.has_update && r.is_prerelease);
    let r = evaluate_update("1.0.0-beta", &update_cfg(false), release("1.0.0-alpha.beta")).unwrap();
    assert!(!r.has_update);
}

#[test]
fn ignored_prerelease_is_reported_but_not_offered() {
    let r = evaluate_update("1.0.0", &update_cfg(true), release("2.0.0-beta.1")).unwrap();
    assert!(!r.has_update);
    assert!(r.is_prerelease);
    assert_eq!(r.update_info.unwrap().latest_version, "2.0.0-beta.1");
    let r = evaluate_update("not a version", &update_cfg(true), release("2.0.0-beta.1")).unwrap();
    assert!(!r.has_update && r.is_prerelease);
    let r = evaluate_update("1.0.0", &update_cfg(true), release("2.0.0")).unwrap();
    assert!(r.has_update && !r.is_prerelease);
}

#[test]
fn dev_build_is_always_offered_the_release() {
    let r = evaluate_update("dev", &update_cfg(false), release("0.0.1")).unwrap();
    assert!(r.has_update);
    assert_eq!(r.current_version, "dev");
    let r = evaluate_update("dev", &update_cfg(false), release("0.0.1-rc.1")).unwrap();
    assert!(r.has_update && r.is_prerelease);
    let r = evaluate_update("dev", &update_cfg(true), release("0.0.1-rc.1")).unwrap();
    assert!(!r.has_update && r.is_prerelease);
}

#[test]
fn versions_that_do_not_parse_are_errors() {
    assert_eq!(
        evaluate_update("1.0.0", &update_cfg(false), release("latest")).unwrap_err(),
        UpdateError::InvalidLatestVersion
    );
    assert_eq!(
        evaluate_update("dev", &update_cfg(false), release("1.0")).unwrap_err(),
        UpdateError::InvalidLatestVersion
    );
    assert_eq!(
        evaluate_update("v1", &update_cfg(false), release("1.0.0")).unwrap_err(),
        UpdateError::InvalidCurrentVersion
    );
    assert_eq!(
        evaluate_update("1.01.0", &update_cfg(false), release("1.0.0")).unwrap_err(),
        UpdateError::InvalidCurrentVersion
    );
    assert_eq!(
        evaluate_update(" 1.0.0", &update_cfg(false), release("1.0.0")).unwrap_err(),
        UpdateError::InvalidCurrentVersion
    );
}

#[test]
fn build_metadata_is_parsed_and_kept() {
    let r = evaluate_update("1.0.0+build.1", &update_cfg(false), release("1.0.1+zstd.1.5.0")).unwrap();
    assert!(r.has_update && !r.is_prerelease);
}

#[test]
fn decision_from_parsed_versions() {
    let latest = version(2, 0, 0, "");
    let current = version(1, 0, 0, "");
    let r = decide_update("1.0.0", false, release("2.0.0"), &latest, &current, true).unwrap();
    assert!(r.has_update && !r.is_prerelease);
    let r = decide_update("1.0.0", false, release("2.0.0"), &latest, &current, false).unwrap();
    assert!(!r.has_update);
    let pre = version(2, 0, 0, "rc.1");
    let r = decide_update("1.0.0", true, release("2.0.0-rc.1"), &pre, &current, true).unwrap();
    assert!(!r.has_update && r.is_prerelease);
    let r = decide_update("1.0.0", false, release("2.0.0-rc.1"), &pre, &current, true).unwrap();
    assert!(r.has_update && r.is_prerelease);
    assert_eq!(
        decide_update("1.0.0", false, release("x"), &None, &current, true).unwrap_err(),
        UpdateError::InvalidLatestVersion
    );
    assert_eq!(
        decide_update("x", false, release("2.0.0"), &latest, &None, true).unwrap_err(),
        UpdateError::InvalidCurrentVersion
    );
    let r = decide_update("dev", false, release("2.0.0"), &latest, &None, false).unwrap();
    assert!(r.has_update);
}
