use omarchy_plugin_bridge::plugin::{chain_verb, gum_block_reason, route, Route, HELP};

fn mk(v: &[&str]) -> Vec<String> {
    v.iter().map(|s| s.to_string()).collect()
}

#[test]
fn routing_covers_all_shapes() {
    assert_eq!(route(&[]), Route::Help);
    assert_eq!(route(&mk(&["-h"])), Route::Help);
    assert_eq!(route(&mk(&["--help"])), Route::Help);
    assert_eq!(route(&mk(&["help"])), Route::Help);
    assert_eq!(route(&mk(&["list"])), Route::ListXray);
    // Escape hatch: --upstream consumes itself, forwards the rest — even bare list.
    assert_eq!(route(&mk(&["list", "--upstream"])), Route::Forward(mk(&["list"])));
    assert_eq!(route(&mk(&["--upstream", "--json"])), Route::Forward(mk(&["--json"])));
    // Machine-readable list forwards; other verbs forward untouched.
    assert_eq!(route(&mk(&["list", "--json"])), Route::Forward(mk(&["list", "--json"])));
    assert_eq!(
        route(&mk(&["add", "owner/repo", "--enable"])),
        Route::Forward(mk(&["add", "owner/repo", "--enable"]))
    );
    assert_eq!(
        route(&mk(&["validate", "--flag", "value with spaces"])),
        Route::Forward(mk(&["validate", "--flag", "value with spaces"]))
    );
}

#[test]
fn gum_guard_blocks_exactly_the_dying_shapes() {
    // The reported failure: URL given, interactive, no --yes.
    let msg = gum_block_reason(&mk(&["add", "https://x/y.git"]), false).unwrap();
    assert!(msg.contains("--yes"));
    // Bare add dies at `gum input` even with --yes.
    let msg = gum_block_reason(&mk(&["add", "--yes"]), false).unwrap();
    assert!(msg.contains("URL argument"));
    // Both missing: one message naming both ways out.
    let msg = gum_block_reason(&mk(&["add"]), false).unwrap();
    assert!(msg.contains("--yes") && msg.contains("URL"));
    // Surviving shapes.
    assert!(gum_block_reason(&mk(&["add", "url", "--yes"]), false).is_none());
    assert!(gum_block_reason(&mk(&["add", "-y", "u"]), false).is_none());
    assert!(gum_block_reason(&mk(&["add", "url", "--yes"]), true).is_none());
    assert!(gum_block_reason(&mk(&["add", "-h"]), false).is_none());
    // Non-add vectors are not this guard's business.
    assert!(gum_block_reason(&mk(&["remove", "id"]), false).is_none());
    // Flags are never mistaken for the URL positional.
    let msg = gum_block_reason(&mk(&["add", "--enable", "--yes"]), false).unwrap();
    assert!(msg.contains("URL argument"));
}

#[test]
fn gum_message_is_exact() {
    assert_eq!(
        gum_block_reason(&mk(&["add", "u"]), false).unwrap(),
        "upstream's add flow needs `gum` for its interactive prompts (not installed) — install it (`sudo pacman -S gum`) or pass --yes to skip its prompts"
    );
}

#[test]
fn help_lists_the_verbs() {
    assert!(HELP.starts_with("opb plugin — manage omarchy-shell plugins"));
    assert!(HELP.contains("opb plugin list --upstream"));
}

#[test]
fn chain_verb_prefixes_the_verb() {
    assert_eq!(chain_verb("enable", mk(&["omarchy.clock", "--yes"])), mk(&["enable", "omarchy.clock", "--yes"]));
}
