use omarchy_plugin_bridge::check::{CheckResult, Report, Status};
use omarchy_plugin_bridge::deps::{
    check_bin, check_desktop, check_quickshell, check_wayland, dependency_checks, version_parse, Probes,
};
use omarchy_plugin_bridge::exit;
use omarchy_plugin_bridge::version::{parse, Version};

fn v(maj: u32, min: u32, pat: u32) -> Version {
    Version { major: maj, minor: min, patch: pat }
}

fn sample() -> Report {
    Report(vec![
        CheckResult::pass("quickshell"),
        CheckResult::warn("gum", "not installed (interactive TUI flows only)"),
        CheckResult::fail("hyprctl", "not found in PATH"),
    ])
}

#[test]
fn exit_code_ok_without_failures() {
    let r = Report(vec![
        CheckResult::pass("git"),
        CheckResult::warn("upower", "missing"),
    ]);
    assert_eq!(r.exit_code(), exit::OK);
}

#[test]
fn exit_code_fail_on_any_failure() {
    assert_eq!(sample().exit_code(), exit::FAIL);
}

#[test]
fn exit_code_ok_on_empty_report() {
    assert_eq!(Report::default().exit_code(), exit::OK);
}

#[test]
fn renders_aligned_table() {
    let out = sample().render();
    let lines: Vec<&str> = out.lines().collect();
    assert_eq!(lines[0], "PASS  quickshell");
    assert_eq!(
        lines[1],
        "WARN  gum         not installed (interactive TUI flows only)"
    );
    assert_eq!(lines[2], "FAIL  hyprctl     not found in PATH");
}

#[test]
fn empty_report_renders_empty_string() {
    assert_eq!(Report::default().render(), "");
}

#[test]
fn render_shows_pass_detail_and_ends_each_line() {
    let r = Report(vec![
        CheckResult::pass_info("WAYLAND_DISPLAY", "wayland-1"),
        CheckResult::info("pin", "x"),
    ]);
    assert_eq!(r.render(), "PASS  WAYLAND_DISPLAY  wayland-1\nINFO  pin              x\n");
}

#[test]
fn dependency_report_orders_rows_and_fails_on_missing_binaries() {
    let p = Probes {
        quickshell: Some("Quickshell 0.3.1".to_owned()),
        hyprctl: true,
        git: false,
        bash: true,
        wayland_display: Some("wayland-1".to_owned()),
        current_desktop: Some("Hyprland".to_owned()),
    };
    let r = dependency_checks(&p);
    let names: Vec<&str> = r.0.iter().map(|c| c.name).collect();
    assert_eq!(
        names,
        ["quickshell", "hyprctl", "git", "bash", "WAYLAND_DISPLAY", "XDG_CURRENT_DESKTOP"]
    );
    assert_eq!(r.0[2], CheckResult::fail("git", "not found in PATH"));
    assert_eq!(r.exit_code(), exit::FAIL);
    let ok = Probes { git: true, ..p };
    assert_eq!(dependency_checks(&ok).exit_code(), exit::OK);
}

#[test]
fn deps_missing_binary_fails() {
    assert_eq!(
        check_quickshell(None),
        CheckResult::fail("quickshell", "not found in PATH")
    );
}

#[test]
fn deps_at_floor_passes() {
    let r = check_quickshell(Some("Quickshell 0.3.1 (revision , distributed by Arch Linux)"));
    assert_eq!(r.status, Status::Pass(Some("0.3.1".into())));
}

#[test]
fn deps_below_floor_warns() {
    let r = check_quickshell(Some("Quickshell 0.2.9"));
    assert_eq!(r.status, Status::Warn("0.2.9 below tested floor 0.3.1".into()));
}

#[test]
fn deps_above_floor_passes() {
    let r = check_quickshell(Some("Quickshell 0.4.1-42-gdeadbeef"));
    assert_eq!(r.status, Status::Pass(Some("0.4.1".into())));
}

#[test]
fn deps_unparseable_output_warns() {
    let r = check_quickshell(Some("???"));
    assert!(matches!(r.status, Status::Warn(_)));
}

#[test]
fn deps_simple_bin_presence() {
    assert_eq!(check_bin("git", true).status, Status::Pass(None));
    assert_eq!(
        check_bin("bash", false),
        CheckResult::fail("bash", "not found in PATH")
    );
}

#[test]
fn deps_real_tool_outputs() {
    assert_eq!(
        version_parse("Quickshell 0.3.1 (revision , distributed by Arch Linux)"),
        Some(v(0, 3, 1))
    );
    assert_eq!(version_parse("git version 2.55.0"), Some(v(2, 55, 0)));
    assert_eq!(
        version_parse("GNU bash, version 5.3.15(1)-release (x86_64-pc-linux-gnu)"),
        Some(v(5, 3, 15))
    );
    assert_eq!(
        version_parse("Hyprland 0.56.2 built from branch v0.56.2 at commit efb5099 clean"),
        Some(v(0, 56, 2))
    );
}

#[test]
fn deps_two_component_and_commit_suffix() {
    assert_eq!(version_parse("0.4"), Some(v(0, 4, 0)));
    assert_eq!(version_parse("0.4.1-42-gdeadbeef"), Some(v(0, 4, 1)));
}

#[test]
fn deps_garbage_yields_none() {
    assert_eq!(version_parse("no version here"), None);
    assert_eq!(version_parse(""), None);
    assert_eq!(version_parse("..."), None);
}

#[test]
fn deps_ordering_is_semantic() {
    assert!(v(0, 10, 0) > v(0, 3, 99));
    assert!(v(1, 0, 0) > v(0, 99, 99));
}

#[test]
fn deps_wayland_set_passes() {
    assert_eq!(
        check_wayland(Some("wayland-1")).status,
        Status::Pass(Some("wayland-1".into()))
    );
    assert!(matches!(check_wayland(Some("")).status, Status::Fail(_)));
}

#[test]
fn deps_wayland_unset_fails() {
    assert_eq!(
        check_wayland(None),
        CheckResult::fail("WAYLAND_DISPLAY", "not set (no Wayland session)")
    );
}

#[test]
fn deps_desktop_hyprland_passes() {
    assert_eq!(
        check_desktop(Some("Hyprland")).status,
        Status::Pass(Some("Hyprland".into()))
    );
    // e.g. Hyprland:sway set by some setups
    assert!(matches!(
        check_desktop(Some("Hyprland:uwsm")).status,
        Status::Pass(_)
    ));
}

#[test]
fn deps_desktop_other_warns() {
    assert_eq!(
        check_desktop(Some("GNOME")).status,
        Status::Warn("session is \"GNOME\", expected Hyprland".into())
    );
    assert_eq!(check_desktop(None).status, Status::Warn("not set".into()));
}

#[test]
fn bins_missing_binary_fails() {
    assert_eq!(
        check_quickshell(None),
        CheckResult::fail("quickshell", "not found in PATH")
    );
}

#[test]
fn bins_at_floor_passes() {
    let r = check_quickshell(Some("Quickshell 0.3.1 (revision , distributed by Arch Linux)"));
    assert_eq!(r.status, Status::Pass(Some("0.3.1".into())));
}

#[test]
fn bins_below_floor_warns() {
    let r = check_quickshell(Some("Quickshell 0.2.9"));
    assert_eq!(r.status, Status::Warn("0.2.9 below tested floor 0.3.1".into()));
}

#[test]
fn bins_above_floor_passes() {
    let r = check_quickshell(Some("Quickshell 0.4.1-42-gdeadbeef"));
    assert_eq!(r.status, Status::Pass(Some("0.4.1".into())));
}

#[test]
fn bins_unparseable_output_warns() {
    let r = check_quickshell(Some("???"));
    assert!(matches!(r.status, Status::Warn(_)));
}

#[test]
fn bins_simple_bin_presence() {
    assert_eq!(check_bin("git", true).status, Status::Pass(None));
    assert_eq!(
        check_bin("bash", false),
        CheckResult::fail("bash", "not found in PATH")
    );
}

#[test]
fn version_real_tool_outputs() {
    assert_eq!(
        parse("Quickshell 0.3.1 (revision , distributed by Arch Linux)"),
        Some(v(0, 3, 1))
    );
    assert_eq!(parse("git version 2.55.0"), Some(v(2, 55, 0)));
    assert_eq!(
        parse("GNU bash, version 5.3.15(1)-release (x86_64-pc-linux-gnu)"),
        Some(v(5, 3, 15))
    );
    assert_eq!(
        parse("Hyprland 0.56.2 built from branch v0.56.2 at commit efb5099 clean"),
        Some(v(0, 56, 2))
    );
}

#[test]
fn version_two_component_and_commit_suffix() {
    assert_eq!(parse("0.4"), Some(v(0, 4, 0)));
    assert_eq!(parse("0.4.1-42-gdeadbeef"), Some(v(0, 4, 1)));
}

#[test]
fn version_garbage_yields_none() {
    assert_eq!(parse("no version here"), None);
    assert_eq!(parse(""), None);
    assert_eq!(parse("..."), None);
}

#[test]
fn version_ordering_is_semantic() {
    assert!(v(0, 10, 0) > v(0, 3, 99));
    assert!(v(1, 0, 0) > v(0, 99, 99));
}

#[test]
fn env_wayland_set_passes() {
    assert_eq!(
        check_wayland(Some("wayland-1")).status,
        Status::Pass(Some("wayland-1".into()))
    );
    assert!(matches!(check_wayland(Some("")).status, Status::Fail(_)));
}

#[test]
fn env_wayland_unset_fails() {
    assert_eq!(
        check_wayland(None),
        CheckResult::fail("WAYLAND_DISPLAY", "not set (no Wayland session)")
    );
}

#[test]
fn env_desktop_hyprland_passes() {
    assert_eq!(
        check_desktop(Some("Hyprland")).status,
        Status::Pass(Some("Hyprland".into()))
    );
    // e.g. Hyprland:sway set by some setups
    assert!(matches!(
        check_desktop(Some("Hyprland:uwsm")).status,
        Status::Pass(_)
    ));
}

#[test]
fn env_desktop_other_warns() {
    assert_eq!(
        check_desktop(Some("GNOME")).status,
        Status::Warn("session is \"GNOME\", expected Hyprland".into())
    );
    assert_eq!(check_desktop(None).status, Status::Warn("not set".into()));
}

#[test]
fn name_column_is_as_wide_as_the_longest_name_in_bytes() {
    // `éé` is four bytes: the column is four wide, padding counts characters.
    let out = Report(vec![CheckResult::pass_info("éé", "x"), CheckResult::pass_info("abc", "y")]).render();
    assert_eq!(out, "PASS  éé    x\nPASS  abc   y\n");
}
