use osbuild_cfg::gate::{
    check_dry_run_target, check_os_family, check_privilege, should_consume, GateError,
};
use osbuild_cfg::osrelease::UnsupportedOs;

#[test]
fn self_consume_needs_all_three() {
    assert!(should_consume(Some("/usr/bin/osbuild-cfg"), true, true));
    assert!(!should_consume(Some("/usr/bin/osbuild-cfg"), false, true));
    assert!(!should_consume(Some("/usr/bin/osbuild-cfg"), true, false));
    assert!(!should_consume(Some("/usr/bin/osbuild-cfg"), false, false));
}

#[test]
fn a_development_build_is_never_consumed() {
    assert!(!should_consume(Some("/home/me/src/osbuild-cfg/target/debug/osbuild-cfg"), true, true));
    assert!(!should_consume(Some("/target/"), true, true));
    assert!(should_consume(Some("/target"), true, true));
    assert!(should_consume(Some("/usr/targets/osbuild-cfg"), true, true));
    assert!(should_consume(Some("target/release/x"), true, true));
    assert!(should_consume(Some(""), true, true));
}

#[test]
fn a_path_that_is_no_text_is_not_held_against_the_run() {
    assert!(should_consume(None, true, true));
    assert!(!should_consume(None, false, true));
    assert!(!should_consume(None, true, false));
}

#[test]
fn dry_run_target_must_be_empty() {
    assert!(check_dry_run_target(true).is_ok());
    assert!(matches!(check_dry_run_target(false), Err(GateError::NonEmptyTarget)));
}

#[test]
fn applying_needs_root() {
    assert!(check_privilege(true).is_ok());
    assert!(matches!(check_privilege(false), Err(GateError::NotRoot)));
}

#[test]
fn os_family_must_be_supported() {
    assert!(check_os_family("ID=fedora\n").is_ok());
    assert!(check_os_family("ID=rhel\nID_LIKE=\"fedora\"\n").is_ok());
    match check_os_family("ID=debian\n") {
        Err(GateError::UnsupportedOs(UnsupportedOs { id })) => {
            assert_eq!(id, Some("debian".to_string()))
        }
        other => panic!("{:?}", other),
    }
}
