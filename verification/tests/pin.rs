use omarchy_plugin_bridge::paths::Paths;
use omarchy_plugin_bridge::pin::{
    active_dir, active_pin, ensure_floor, file_name, parse_version, short, PinError, PinLock,
    CHANNEL_STABLE,
};

#[test]
fn channel_defaults_to_stable() {
    assert_eq!(PinLock::stable("x", "y").channel, CHANNEL_STABLE);
}

#[test]
fn parse_version_handles_upstream_shapes() {
    assert_eq!(parse_version("4.0.0.alpha"), Some((4, 0, 0)));
    assert_eq!(parse_version("4.0.0"), Some((4, 0, 0)));
    assert_eq!(parse_version("v4.1.0\n"), Some((4, 1, 0)));
    assert_eq!(parse_version("4.1"), Some((4, 1, 0)));
    assert_eq!(parse_version("4.2.9-x.y"), Some((4, 2, 9)));
}

#[test]
fn parse_version_rejects_garbage() {
    assert_eq!(parse_version(""), None);
    assert_eq!(parse_version("banana"), None);
    // Non-numeric component before three numbers are read.
    assert_eq!(parse_version("4.0.alpha"), None);
}

#[test]
fn floor_accepts_quattro_and_newer() {
    assert!(ensure_floor("4.0.0.alpha").is_ok());
    assert!(ensure_floor("4.1.0").is_ok());
    assert!(ensure_floor("5.0.0").is_ok());
}

#[test]
fn floor_refuses_pre_quattro_and_garbage() {
    let err = ensure_floor("3.9.9").unwrap_err().message();
    assert!(err.contains("predates quattro"), "got: {err}");
    assert!(ensure_floor("nonsense").is_err());
}

#[test]
fn floor_error_texts() {
    assert_eq!(
        ensure_floor("3.0.1").unwrap_err().message(),
        "upstream version 3.0.1 predates quattro (4.0) — the plugin architecture does not exist before v4.0.0"
    );
    assert_eq!(
        ensure_floor("nonsense").unwrap_err().message(),
        "unparseable upstream version \"nonsense\""
    );
}

#[test]
fn with_previous_records_the_generation_left() {
    let next = PinLock::stable("v4.1.0", "aaa").with_previous(&PinLock::stable("v4.0.0", "bbb"));
    let prev = next.previous.clone().unwrap();
    assert_eq!(prev.reference, "v4.0.0");
    assert_eq!(prev.commit, "bbb");
    assert_eq!(next.reference, "v4.1.0");
    assert_eq!(PinLock::stable("v4.0.0", "abc").previous, None);
}

#[test]
fn current_pin_prefers_lock_over_link() {
    let paths = Paths::new("/h");
    let commit = "a1b2c3d4e5f6a7b8c9d0e1f2a3b4c5d6e7f8a9b0";
    let lock = PinLock::stable("v4.0.0", commit);
    let target = paths.pin_dir("other");
    let (got, dir) = active_pin(&paths, Some(&lock), Some(target.as_str())).unwrap();
    assert_eq!(got, commit);
    assert_eq!(dir, paths.pin_dir(commit));
}

#[test]
fn current_pin_derives_commit_from_link_without_lock() {
    let paths = Paths::new("/h");
    let commit = "a1b2c3d4e5f6a7b8c9d0e1f2a3b4c5d6e7f8a9b0";
    let target = paths.pin_dir(commit);
    let (got, dir) = active_pin(&paths, None, Some(target.as_str())).unwrap();
    assert_eq!(got, commit);
    assert_eq!(dir, paths.pin_dir(commit));
}

#[test]
fn active_pin_is_none_unbootstrapped_and_active_dir_bails() {
    let paths = Paths::new("/h");
    assert!(active_pin(&paths, None, None).is_none());
    assert_eq!(active_dir(None), Err(PinError::NotBootstrapped));
    assert_eq!(
        PinError::NotBootstrapped.message(),
        "not bootstrapped — run `opb bootstrap` first"
    );
    assert_eq!(active_dir(Some(("c".into(), "/d".into()))), Ok("/d".to_owned()));
}

#[test]
fn link_without_prefix_names_the_commit_verbatim() {
    let paths = Paths::new("/h");
    let (got, dir) = active_pin(&paths, None, Some("/x/y/deadbeef/")).unwrap();
    assert_eq!(got, "deadbeef");
    assert_eq!(dir, "/x/y/deadbeef/");
}

#[test]
fn file_name_follows_path_rules() {
    assert_eq!(file_name("/a/b/c"), Some("c".to_owned()));
    assert_eq!(file_name("/a/b/c/"), Some("c".to_owned()));
    assert_eq!(file_name("/a/b/."), Some("b".to_owned()));
    assert_eq!(file_name("/a/.."), None);
    assert_eq!(file_name("/"), None);
}

#[test]
fn short_takes_eight_characters() {
    assert_eq!(short("0123456789abcdef"), "01234567");
    assert_eq!(short("abc"), "abc");
}
