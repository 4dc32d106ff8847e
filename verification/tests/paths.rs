use omarchy_plugin_bridge::bootstrap::clone_tmp_dir;
use omarchy_plugin_bridge::fonts::{dest_path, source_path};
use omarchy_plugin_bridge::paths::Paths;
use omarchy_plugin_bridge::select::{plugins_roots, user_plugins_dir};
use omarchy_plugin_bridge::shell::shell_dir;

fn paths() -> Paths {
    Paths::new("/home/test")
}

#[test]
fn pin_dirname_prefixes_commit() {
    assert_eq!(Paths::pin_dirname("0123456789abcdef"), "omarchy@0123456789abcdef");
}

#[test]
fn default_layout_matches_concept() {
    let p = paths();
    assert_eq!(p.opb_state_dir(), "/home/test/.local/share/opb");
    assert_eq!(p.upstream_dir(), "/home/test/.local/share/opb/upstream");
    assert_eq!(p.pin_dir("abc"), "/home/test/.local/share/opb/upstream/omarchy@abc");
    assert_eq!(p.current_dir(), "/home/test/.local/share/opb/upstream/current");
    assert_eq!(p.lock_file(), "/home/test/.local/share/opb/upstream.lock");
    assert_eq!(p.shell_json(), "/home/test/.config/omarchy/shell.json");
    assert_eq!(p.hypr_config_dir(), "/home/test/.config/hypr");
    assert_eq!(p.opb_conf(), "/home/test/.config/hypr/opb.conf");
}

#[test]
fn xdg_roots_move_opb_and_hypr_but_not_omarchy_config() {
    // opb state + hypr wiring follow XDG; omarchy config is contract-fixed at
    // $HOME/.config/omarchy regardless.
    let p = Paths::from_parts("/home/test".into(), "/mnt/data".into(), "/mnt/config".into());
    assert_eq!(p.opb_state_dir(), "/mnt/data/opb");
    assert_eq!(p.hypr_config_dir(), "/mnt/config/hypr");
    assert_eq!(p.shell_json(), "/home/test/.config/omarchy/shell.json");
}

#[test]
fn remaining_locations_follow_their_owner() {
    let p = paths();
    assert_eq!(p.home(), "/home/test");
    assert_eq!(p.hyprland_lua(), "/home/test/.config/hypr/hyprland.lua");
    assert_eq!(p.opb_lua(), "/home/test/.config/hypr/opb.lua");
    assert_eq!(p.legacy_opb_conf(), "/home/test/.config/hypr/opb.conf");
    assert_eq!(p.opb_config_dir(), "/home/test/.config/opb");
    assert_eq!(p.keys_lua(), "/home/test/.config/opb/keys.lua");
    assert_eq!(p.fonts_dir(), "/home/test/.local/share/fonts");
    assert_eq!(p.watch_pid(), "/home/test/.local/share/opb/keys-watch.pid");
    assert_eq!(p.omarchy_config_dir(), "/home/test/.config/omarchy");
}

#[test]
fn joins_follow_path_semantics() {
    let p = Paths::new("/home/test/");
    assert_eq!(p.opb_state_dir(), "/home/test/.local/share/opb");
    let q = Paths::from_parts("/h".into(), "/d".into(), "/c".into());
    assert_eq!(q.pin_dir("x"), "/d/opb/upstream/omarchy@x");
}

#[test]
fn derived_locations() {
    let p = paths();
    assert_eq!(shell_dir(&p), "/home/test/.local/share/opb/upstream/current/shell");
    assert_eq!(
        source_path(&p),
        "/home/test/.local/share/opb/upstream/current/default/fonts/omarchy/omarchy.ttf"
    );
    assert_eq!(dest_path(&p), "/home/test/.local/share/fonts/omarchy/omarchy.ttf");
    assert_eq!(clone_tmp_dir(&p, 4242), "/home/test/.local/share/opb/upstream/.clone-tmp4242");
    assert_eq!(user_plugins_dir(&p), "/home/test/.config/omarchy/plugins");
}

#[test]
fn plugins_roots_cover_pin_and_user_dirs() {
    let p = paths();
    let roots = plugins_roots(&p, Some("/pins/omarchy@abc"));
    assert_eq!(roots.len(), 2);
    assert!(roots[0].ends_with("shell/plugins"));
    assert!(roots[1].ends_with(".config/omarchy/plugins"));
    let bare = plugins_roots(&p, None);
    assert_eq!(bare, vec!["/home/test/.config/omarchy/plugins".to_owned()]);
}
