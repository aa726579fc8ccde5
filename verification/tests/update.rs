use kaku::update::{
    cache_is_stale, cache_record, cached_newer_version, detect_install_source,
    extract_json_value, is_newer_than_current, up_to_date_message, update_command, update_notice,
    user_agent, version_from_release, update_step, InstallSource, UpdateStep, CACHE_TTL_SECS,
    CURRENT_VERSION, NPM_PACKAGE,
};

#[test]
fn extracts_tag_name() {
    let json = r#"{"tag_name":"v0.1.2","name":"release"}"#;
    assert_eq!(extract_json_value(json, "tag_name").as_deref(), Some("v0.1.2"));
}

#[test]
fn compares_versions() {
    assert!(is_newer_than_current("9.9.9"));
    assert!(!is_newer_than_current("0.1.2"));
}

#[test]
fn version_comparison_rejects_what_does_not_parse() {
    assert!(!is_newer_than_current("not a version"));
    assert!(!is_newer_than_current("1.0"));
    assert!(is_newer_than_current("0.1.3"));
    assert!(!is_newer_than_current("0.1.2-rc.1"));
}

#[test]
fn json_values_are_found_after_whitespace_and_unescaped() {
    assert_eq!(extract_json_value(r#"{"a": "x\"y"}"#, "a").as_deref(), Some("x\"y"));
    assert_eq!(extract_json_value(r#"{"a":   "b"}"#, "a").as_deref(), Some("b"));
    assert_eq!(extract_json_value(r#"{"a": 1}"#, "a"), None);
    assert_eq!(extract_json_value(r#"{"b": "1"}"#, "a"), None);
    assert_eq!(extract_json_value(r#"{"a": "open"#, "a").as_deref(), Some("open"));
}

#[test]
fn release_version_drops_the_v() {
    assert_eq!(version_from_release(r#"{"tag_name":"v1.2.3"}"#), Ok("1.2.3".to_string()));
    assert_eq!(version_from_release(r#"{"tag_name":"vv2.0.0"}"#), Ok("2.0.0".to_string()));
    assert_eq!(version_from_release(r#"{"name":"x"}"#), Err("missing tag_name".to_string()));
}

#[test]
fn notice_names_the_version() {
    assert_eq!(update_notice("1.0.0"), "Update available: 1.0.0  run: kaku update");
    assert_eq!(up_to_date_message(), "kaku is up to date (0.1.2)");
    assert_eq!(user_agent(), "kaku/0.1.2");
}

#[test]
fn cache_round_trips_a_fresh_newer_version() {
    let record = cache_record(1000, "9.0.0");
    assert_eq!(record, "1000\n9.0.0\n");
    assert_eq!(cached_newer_version(&record, 1000 + CACHE_TTL_SECS), Some("9.0.0".to_string()));
    assert_eq!(cached_newer_version(&record, 1001 + CACHE_TTL_SECS), None);
    assert!(!cache_is_stale(Some(&record), 1000 + CACHE_TTL_SECS));
    assert!(cache_is_stale(Some(&record), 1001 + CACHE_TTL_SECS));
}

#[test]
fn cache_rejects_bad_contents() {
    assert_eq!(cached_newer_version("", 0), None);
    assert_eq!(cached_newer_version("abc\n9.0.0\n", 0), None);
    assert_eq!(cached_newer_version("5\n", 5), None);
    assert_eq!(cached_newer_version("5\n0.1.2\n", 5), None);
    assert_eq!(cached_newer_version("+5\r\n9.0.0\r\n", 5), Some("9.0.0".to_string()));
    assert!(cache_is_stale(None, 0));
    assert!(cache_is_stale(Some(""), 0));
    assert!(cache_is_stale(Some("-1\n"), 0));
    assert!(cache_is_stale(Some("99999999999999999999\n"), 0));
    assert!(!cache_is_stale(Some("7"), 7));
}

#[test]
fn install_source_prefers_homebrew_then_npm() {
    assert_eq!(detect_install_source(false, true, true), InstallSource::Homebrew);
    assert_eq!(detect_install_source(false, false, true), InstallSource::Npm);
    assert_eq!(detect_install_source(false, false, false), InstallSource::StandaloneUnix);
    assert_eq!(detect_install_source(true, true, false), InstallSource::StandaloneWindows);
    assert_eq!(detect_install_source(true, false, true), InstallSource::Npm);
}

#[test]
fn upgrade_commands() {
    let (program, args) = update_command(InstallSource::Npm);
    assert_eq!(program, "npm");
    assert_eq!(args, vec!["install", "-g", "@voidique/kaku@latest"]);
    let (program, args) = update_command(InstallSource::Homebrew);
    assert_eq!(program, "brew");
    assert_eq!(args, vec!["upgrade", "kaku"]);
    assert_eq!(update_command(InstallSource::StandaloneUnix).0, "sh");
    assert_eq!(update_command(InstallSource::StandaloneWindows).1.len(), 4);
}

#[test]
fn update_steps_follow_the_install_route() {
    match update_step(&None, false, None, None) {
        UpdateStep::UpToDate(message) => {
            assert_eq!(message, format!("kaku is up to date ({CURRENT_VERSION})"))
        }
        _ => panic!("a failed query counts as this build's version"),
    }
    let latest = Some("999.0.0".to_string());
    assert!(matches!(update_step(&latest, false, None, None), UpdateStep::ProbeHomebrew));
    match update_step(&latest, false, Some(true), None) {
        UpdateStep::Run(program, args) => {
            assert_eq!(program, "brew");
            assert_eq!(args, vec!["upgrade".to_string(), "kaku".to_string()]);
        }
        _ => panic!("Homebrew installs upgrade through brew"),
    }
    assert!(matches!(update_step(&latest, false, Some(false), None), UpdateStep::ProbeNpm));
    match update_step(&latest, false, Some(false), Some(true)) {
        UpdateStep::Run(program, args) => {
            assert_eq!(program, "npm");
            assert_eq!(args[2], format!("{NPM_PACKAGE}@latest"));
        }
        _ => panic!("npm installs upgrade through npm"),
    }
    match update_step(&latest, false, Some(false), Some(false)) {
        UpdateStep::Run(program, _) => assert_eq!(program, "sh"),
        _ => panic!("otherwise the standalone installer runs"),
    }
    assert!(matches!(update_step(&latest, true, None, None), UpdateStep::ProbeNpm));
    match update_step(&latest, true, None, Some(false)) {
        UpdateStep::Run(program, _) => assert_eq!(program, "powershell"),
        _ => panic!("Windows uses the PowerShell installer"),
    }
    match update_step(&Some("0.0.1".to_string()), false, None, None) {
        UpdateStep::UpToDate(_) => {}
        _ => panic!("an older release is no update"),
    }
}
