use omarchy_plugin_bridge::bootstrap::{
    already_message, ensure_pin_usable, plan, regenerated_message, validate_clone, BootstrapError,
    Step,
};
use omarchy_plugin_bridge::check::{CheckResult, Status};
use omarchy_plugin_bridge::exit;
use omarchy_plugin_bridge::fonts::{check, font_listed, install_outcome, InstallOutcome};
use omarchy_plugin_bridge::hypr::{
    already_required, enable_report, is_managed, legacy_removable, render, require_hint, with_require_line,
    HyprError,
};
use omarchy_plugin_bridge::pin::PinLock;
use omarchy_plugin_bridge::prompt::{answer, hint};
use omarchy_plugin_bridge::shell::{escape_ere, ping_ok, proc_pattern};
use omarchy_plugin_bridge::status::report;

fn status_of(r: &omarchy_plugin_bridge::check::Report, name: &str) -> String {
    let c = r
        .0
        .iter()
        .find(|c| c.name == name)
        .unwrap_or_else(|| panic!("no check named {name}"));
    format!("{:?}", c.status).split('(').next().unwrap().to_owned()
}

#[test]
fn render_targets_native_api_only_and_loads_keys() {
    let s = render(
        "/h/.local/share/opb/upstream/omarchy@abc",
        "/h/.local/share/opb/upstream/current",
        "/h/.config/opb/keys.lua",
    );
    assert!(s.contains("local OPB_PIN = [[/h/.local/share/opb/upstream/omarchy@abc]]"));
    assert!(s.contains("local OPB_KEYS = [[/h/.config/opb/keys.lua]]"));
    assert!(s.contains("hl.on(\"hyprland.start\""));
    assert!(s.contains("quickshell -p "));
    assert!(s.contains("dofile(OPB_KEYS)"));
    // Autostart + keybind loading only: zero binds of its own, and no
    // dependency on omarchy helper functions.
    assert!(!s.contains("hl.bind"));
    assert!(!s.contains("o.bind"));
    assert!(s.contains(require_hint()));
}

#[test]
fn render_fills_the_current_shell_path() {
    let s = render("/p", "/c", "/k");
    assert!(s.contains("quickshell -p \" .. opb_quote(\"/c/shell\")"));
    assert!(!s.contains("<PIN>") && !s.contains("<KEYS>") && !s.contains("<CURRENT>"));
}

#[test]
fn already_required_detects_activation_forms() {
    assert!(already_required("require(\"opb\")"));
    assert!(already_required("  require('opb') -- wiring"));
    assert!(already_required("local opb = require \"opb\""));
    assert!(already_required("dofile(\"/home/u/.config/hypr/opb.lua\")"));
    assert!(!already_required("require(\"binds\")"));
    assert!(!already_required("-- opb TODO later"));
    assert!(!already_required(""));
}

#[test]
fn is_managed_checks_marker() {
    assert!(is_managed("# Managed by opb — regenerate…\nenv = X\n"));
    assert!(is_managed("\n\n# Managed by opb\nrest"));
    assert!(!is_managed("# my own config\n"));
    assert!(!is_managed(""));
}

#[test]
fn enable_refuses_without_hyprland_lua() {
    let err = enable_report("/h/.config/hypr/hyprland.lua", None, None).unwrap_err();
    assert_eq!(err, HyprError::NoLuaConfig("/h/.config/hypr/hyprland.lua".to_owned()));
    assert!(err.message().contains("requires a Lua-config Hyprland"));
}

#[test]
fn enable_reports_missing_require_line_and_owned_legacy_conf() {
    let r = enable_report("/x", Some(Some("require(\"binds\")\n")), None).unwrap();
    assert!(r.needs_require_line);
    assert!(!r.legacy_conf_removed);
    let r = enable_report("/x", Some(Some("require(\"opb\")\n")), Some(Some("# Managed by opb — regenerate.\n")))
        .unwrap();
    assert!(!r.needs_require_line);
    assert!(r.legacy_conf_removed);
    // A user-touched legacy file stays.
    assert!(!legacy_removable(Some(Some("# my tweaks\n"))));
    assert!(!legacy_removable(Some(None)));
    // An unreadable hyprland.lua still needs the line.
    assert!(enable_report("/x", Some(None), None).unwrap().needs_require_line);
}

#[test]
fn proc_pattern_is_contiguous_quickshell_p() {
    assert_eq!(proc_pattern("/s/current/shell"), "quickshell -p /s/current/shell");
}

#[test]
fn proc_pattern_escapes_regex_metachars_in_home() {
    assert_eq!(
        proc_pattern("/home/user+1/.local/share/opb/upstream/current/shell"),
        r"quickshell -p /home/user\+1/\.local/share/opb/upstream/current/shell"
    );
}

#[test]
fn escape_ere_covers_every_metachar() {
    assert_eq!(escape_ere("a.b*c[d]e(f)g{h}i^j$k|l?m+n\\o"), r"a\.b\*c\[d\]e\(f\)g\{h\}i\^j\$k\|l\?m\+n\\o");
}

#[test]
fn check_reflects_presence() {
    assert_eq!(check(true).status, Status::Pass(None));
    assert!(matches!(check(false).status, Status::Warn(_)));
}

#[test]
fn install_writes_font_only_when_needed() {
    assert_eq!(install_outcome(Some(&b"fake ttf bytes"[..]), None), InstallOutcome::Installed);
    assert_eq!(install_outcome(Some(&b"fake ttf bytes"[..]), Some(&b"fake ttf bytes"[..])), InstallOutcome::AlreadyPresent);
    assert_eq!(install_outcome(Some(&b"new"[..]), Some(&b"old"[..])), InstallOutcome::Installed);
    // A pin that ships no font has nothing to install.
    assert_eq!(install_outcome(None, None), InstallOutcome::AlreadyPresent);
}

#[test]
fn prompt_answers_take_the_default_on_anything_else() {
    assert!(answer("", true));
    assert!(!answer("", false));
    assert!(answer("Y\n", false));
    assert!(answer("  yes ", false));
    assert!(!answer("no\n", true));
    assert!(!answer("N", true));
    assert!(answer("maybe", true));
    assert_eq!(hint(true), "[Y/n]");
    assert_eq!(hint(false), "[y/N]");
}

#[test]
fn not_bootstrapped_is_info_and_exits_zero() {
    let r = report(&Ok(None), false, false, false, false, true);
    assert_eq!(status_of(&r, "pin"), "Info");
    assert_eq!(r.exit_code(), exit::OK);
    assert_eq!(r.0.len(), 4, "exactly pin + wiring + process + font rows");
}

#[test]
fn healthy_fixture_passes_pin_and_exits_zero() {
    let lock = PinLock::stable("v4.0.0", "a1b2c3d4e5f6a7b8c9d0e1f2a3b4c5d6e7f8a9b0");
    let r = report(&Ok(Some(lock)), true, false, false, false, true);
    assert_eq!(status_of(&r, "pin"), "Pass");
    assert_eq!(r.0[0], CheckResult::pass_info("pin", "v4.0.0 @ a1b2c3d4"));
    assert_eq!(status_of(&r, "session wiring"), "Info");
    assert_eq!(r.exit_code(), exit::OK, "{:#?}", r);
}

#[test]
fn missing_pin_dir_fails() {
    let lock = PinLock::stable("v4.0.0", "ghost");
    let r = report(&Ok(Some(lock)), false, false, false, false, true);
    assert_eq!(r.exit_code(), exit::FAIL);
    assert_eq!(status_of(&r, "pin"), "Fail");
    assert_eq!(
        r.0[0],
        CheckResult::fail("pin", "dir missing for v4.0.0 @ ghost — run `opb bootstrap`")
    );
}

#[test]
fn wired_but_not_activated_warns() {
    let lock = PinLock::stable("v4.0.0", "abc");
    let r = report(&Ok(Some(lock)), true, true, false, false, true);
    assert_eq!(status_of(&r, "session wiring"), "Warn");
    assert_eq!(r.exit_code(), exit::OK, "not activated is a warning, not a failure");
}

#[test]
fn unreadable_lock_fails_under_its_own_name() {
    let r = report(&Err("expected `=`".to_owned()), false, true, true, true, false);
    assert_eq!(r.0[0], CheckResult::fail("upstream.lock", "unreadable: expected `=`"));
    assert_eq!(status_of(&r, "session wiring"), "Pass");
    assert_eq!(r.0[2], CheckResult::info("shell process", "running"));
    assert_eq!(status_of(&r, "omarchy icon font"), "Warn");
    assert_eq!(r.exit_code(), exit::FAIL);
}

#[test]
fn redo_without_existing_pin_is_an_error() {
    assert_eq!(plan(None, true), Err(BootstrapError::NothingToRedo));
    assert_eq!(
        BootstrapError::NothingToRedo.message(),
        "not bootstrapped yet — nothing to redo; run `opb bootstrap` first"
    );
}

#[test]
fn redo_on_missing_pin_dir_errors() {
    let commit = "a1b2c3d4e5f6a7b8c9d0e1f2a3b4c5d6e7f8a9b0";
    let err = ensure_pin_usable(false, commit).unwrap_err();
    assert_eq!(
        err.message(),
        "pin a1b2c3d4e5f6a7b8c9d0e1f2a3b4c5d6e7f8a9b0 has no shell/plugins dir — not an omarchy checkout; delete the pin and bootstrap again"
    );
    assert!(ensure_pin_usable(true, commit).is_ok());
}

#[test]
fn bootstrap_steps_never_move_an_existing_pin() {
    let active = Some(("abc".to_owned(), "/pins/omarchy@abc".to_owned()));
    assert_eq!(
        plan(active.clone(), true),
        Ok(Step::Redo { commit: "abc".into(), pin_dir: "/pins/omarchy@abc".into() })
    );
    assert_eq!(plan(active, false), Ok(Step::AlreadyBootstrapped { commit: "abc".into() }));
    assert_eq!(plan(None, false), Ok(Step::Fresh));
}

#[test]
fn clone_validation_refuses_pinned_and_foreign_checkouts() {
    assert_eq!(validate_clone("c", true, true), Err(BootstrapError::AlreadyPinned("c".into())));
    assert_eq!(validate_clone("c", false, false), Err(BootstrapError::CloneNotOmarchyCheckout("c".into())));
    assert!(validate_clone("c", false, true).is_ok());
    assert_eq!(
        BootstrapError::AlreadyPinned("c".into()).message(),
        "commit c is already pinned; re-run without --ref"
    );
}

#[test]
fn bootstrap_messages() {
    assert_eq!(
        already_message("0123456789abcdef"),
        "opb bootstrap: already bootstrapped (01234567 @ 0123456789abcdef)\n  move the pin with `opb update` (Phase 4)\n  re-generate generated artifacts with `opb bootstrap --redo`\n"
    );
    assert_eq!(
        regenerated_message("0123456789abcdef", "/p"),
        "opb bootstrap: regenerated shell.json + opb.conf against 01234567 (/p)\n"
    );
}

#[test]
fn non_tty_stdin_takes_the_default() {
    // A closed or empty stdin reads as an empty line.
    assert!(answer("", true));
    assert!(!answer("", false));
}

#[test]
fn require_line_is_added_once_and_then_activates() {
    let src = "-- my config\nhl.monitor()";
    let next = with_require_line(src).unwrap();
    assert_eq!(next, "-- my config\nhl.monitor()\nrequire(\"opb\")\n");
    assert!(already_required(&next));
    assert_eq!(with_require_line(&next), None);
    assert_eq!(with_require_line("").as_deref(), Some("require(\"opb\")\n"));
    assert_eq!(with_require_line("x\n").as_deref(), Some("x\nrequire(\"opb\")\n"));
}

#[test]
fn liveness_needs_exit_zero_and_ok() {
    assert!(ping_ok(true, "ok\n"));
    assert!(!ping_ok(true, "config path not found\n"));
    assert!(!ping_ok(false, "ok"));
}

#[test]
fn font_probe_looks_for_the_omarchy_family() {
    assert!(font_listed(Some("omarchy\n")));
    assert!(!font_listed(Some("DejaVu Sans\n")));
    assert!(!font_listed(None));
}
