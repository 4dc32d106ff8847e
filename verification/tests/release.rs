use omarchy_plugin_bridge::git::{log_entries, parse_latest_tag, GitError};
use omarchy_plugin_bridge::selfupdate::{
    asset_name, asset_url, current_version, first_token, newer_release, package_managed,
    target_triple, verify_checksum, Release, SelfUpdateError,
};

fn tags() -> &'static str {
    "\
abc\trefs/tags/v3.0.1
def\trefs/tags/v3.0.1^{}
1a2b\trefs/tags/v4.0.0
1a2b\trefs/tags/v4.0.0^{}
zzz\trefs/tags/not-a-version
ccc\trefs/tags/v4.0.0-rc.1
"
}

#[test]
fn picks_highest_release_tag() {
    assert_eq!(parse_latest_tag(tags()).unwrap(), "v4.0.0");
}

#[test]
fn ignores_deref_lines_and_non_semver() {
    let out = "\
x\trefs/tags/foo
y\trefs/tags/v1.2.3^{}
z\trefs/tags/v1.2.3
";
    assert_eq!(parse_latest_tag(out).unwrap(), "v1.2.3");
}

#[test]
fn no_semver_tags_is_an_error() {
    assert!(parse_latest_tag("a\trefs/tags/nope\n").is_err());
    assert!(parse_latest_tag("").is_err());
    assert_eq!(
        GitError::NoSemverTags.message(),
        "no semver release tags found at https://github.com/basecamp/omarchy"
    );
}

#[test]
fn later_equal_tags_keep_the_first_and_prefixless_tags_count() {
    let out = "a\trefs/tags/1.2.0\nb\trefs/tags/v1.10.0\nc\trefs/tags/v1.9.9\n";
    assert_eq!(parse_latest_tag(out).unwrap(), "v1.10.0");
}

#[test]
fn log_entries_split_trimmed_output() {
    assert_eq!(log_entries(""), Vec::<String>::new());
    assert_eq!(log_entries("\n"), Vec::<String>::new());
    assert_eq!(
        log_entries("abc first\ndef second\n"),
        vec!["abc first".to_owned(), "def second".to_owned()]
    );
}

#[test]
fn newer_release_detects_a_newer_tag() {
    let r = newer_release("v9.9.9").unwrap().unwrap();
    assert_eq!(r.tag, "v9.9.9");
    assert_eq!(r.version.to_string(), "9.9.9");
}

#[test]
fn newer_release_accepts_unprefixed_tags() {
    assert!(newer_release("99.0.0").unwrap().is_some());
}

#[test]
fn newer_release_is_none_for_current_or_older() {
    assert!(newer_release(&format!("v{}", current_version())).unwrap().is_none());
    assert!(newer_release("v0.0.1").unwrap().is_none());
}

#[test]
fn newer_release_rejects_non_semver_tags() {
    assert!(newer_release("latest").is_err());
    assert!(newer_release("").is_err());
    assert_eq!(
        newer_release("latest").unwrap_err().message(),
        "opb release tag latest is not semver"
    );
}

#[test]
fn first_token_takes_the_hash() {
    assert_eq!(
        first_token("0123ab  omarchy-plugin-bridge-0.3.0-x86_64-unknown-linux-gnu.tar.gz\n").unwrap(),
        "0123ab"
    );
    assert!(first_token("\n").is_err());
}

#[test]
fn target_triple_matches_release_asset() {
    assert_eq!(target_triple("linux", "x86_64").unwrap(), "x86_64-unknown-linux-gnu");
    assert_eq!(target_triple("macos", "aarch64"), Err(SelfUpdateError::NotLinux));
}

#[test]
fn asset_names_and_urls() {
    let r = Release { tag: "v0.3.0".into(), version: "0.3.0".into() };
    let name = asset_name(&r, "x86_64-unknown-linux-gnu");
    assert_eq!(name, "omarchy-plugin-bridge-0.3.0-x86_64-unknown-linux-gnu.tar.gz");
    assert_eq!(
        asset_url(&r.tag, &name),
        "https://github.com/Qurupeco01/omarchy-plugin-bridge/releases/download/v0.3.0/omarchy-plugin-bridge-0.3.0-x86_64-unknown-linux-gnu.tar.gz"
    );
}

#[test]
fn verify_sha256_accepts_matching_and_rejects_tampered() {
    assert!(verify_checksum("abc123  asset.tar.gz\n", "abc123  /tmp/x/asset.tar.gz\n", "/tmp/x/asset.tar.gz").is_ok());
    assert_eq!(
        verify_checksum(&"0".repeat(64), "abc123  /tmp/x/asset.tar.gz\n", "/tmp/x/asset.tar.gz"),
        Err(SelfUpdateError::ChecksumMismatch("/tmp/x/asset.tar.gz".into()))
    );
    assert_eq!(verify_checksum("", "abc", "a"), Err(SelfUpdateError::EmptyChecksum));
}

#[test]
fn package_managed_binaries_live_under_usr_bin() {
    assert!(package_managed("/usr/bin/opb"));
    assert!(package_managed("/usr//bin/./opb"));
    assert!(!package_managed("/usr/binx/opb"));
    assert!(!package_managed("/home/u/.local/bin/opb"));
    assert!(!package_managed("usr/bin/opb"));
}
