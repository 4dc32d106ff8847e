use omarchy_plugin_bridge::check::Status;
use omarchy_plugin_bridge::doctor::conflicts::{parse_processes, scan};
use omarchy_plugin_bridge::doctor::config_checks;
use omarchy_plugin_bridge::doctor::shellcfg::{enabled_components, BAR, NOTIFICATIONS, POLKIT};
use omarchy_plugin_bridge::env::{build, prepend_bin, shell_exports};
use omarchy_plugin_bridge::json::Json;
use omarchy_plugin_bridge::shelljson::generate;

fn to_json(v: &serde_json::Value) -> Json {
    match v {
        serde_json::Value::Null => Json::Null,
        serde_json::Value::Bool(b) => Json::Bool(*b),
        serde_json::Value::Number(n) => Json::Number(n.to_string()),
        serde_json::Value::String(s) => Json::Str(s.clone()),
        serde_json::Value::Array(a) => Json::Array(a.iter().map(to_json).collect()),
        serde_json::Value::Object(o) => {
            Json::Object(o.iter().map(|(k, x)| (k.clone(), to_json(x))).collect())
        }
    }
}

fn from_json(j: &Json) -> serde_json::Value {
    match j {
        Json::Null => serde_json::Value::Null,
        Json::Bool(b) => serde_json::Value::Bool(*b),
        Json::Number(n) => serde_json::from_str(n).unwrap(),
        Json::Str(s) => serde_json::Value::String(s.clone()),
        Json::Array(a) => serde_json::Value::Array(a.iter().map(from_json).collect()),
        Json::Object(fs) => {
            let mut m = serde_json::Map::new();
            for (k, x) in fs {
                m.insert(k.clone(), from_json(x));
            }
            serde_json::Value::Object(m)
        }
    }
}

fn parse(text: &str) -> serde_json::Value {
    serde_json::from_str(text).unwrap()
}

/// Representative `busctl --user list` snapshot (format captured from a live session).
const SNAPSHOT: &str = "\
NAME                                            PID PROCESS         USER       CONNECTION    UNIT              SESSION DESCRIPTION
:1.3                                            981 Hyprland        qurupeco01 :1.3          session-3.scope   3       -
:1.11                                          1057 hyprpolkitagent qurupeco01 :1.11         user@1000.service -       -
:1.29                                          1241 mako            qurupeco01 :1.29         user@1000.service -       -
:1.99                                          2001 polkit-gnome-au qurupeco01 :1.99         user@1000.service -       -
:1.77                                          1888 waybar          qurupeco01 :1.77         session-3.scope   3       -
";

#[test]
fn parses_process_column_skipping_header() {
    assert_eq!(
        parse_processes(SNAPSHOT),
        vec![
            "Hyprland".to_string(),
            "hyprpolkitagent".to_string(),
            "mako".to_string(),
            "polkit-gnome-au".to_string(),
            "waybar".to_string(),
        ]
    );
}

#[test]
fn dedupes_processes_with_multiple_connections() {
    let multi = format!("{SNAPSHOT}:1.78  1888 waybar      qurupeco01 :1.78 session-3.scope 3 -\n");
    let procs = parse_processes(&multi);
    assert_eq!(procs.iter().filter(|p| *p == "waybar").count(), 1);
}

#[test]
fn detects_matrix_conflicts() {
    let procs = parse_processes(SNAPSHOT);
    let hits = scan(&procs);
    let warn: Vec<_> = hits.iter().filter(|c| matches!(c.status, Status::Warn(_))).collect();
    assert_eq!(warn.len(), 3); // mako + hyprpolkitagent + polkit-gnome(prefix)
    assert!(warn.iter().any(|c| c.name == "omarchy.notifications"));
    assert!(warn.iter().any(|c| c.name == "omarchy.polkit"));
}

#[test]
fn bar_is_informational_only() {
    let procs = parse_processes(SNAPSHOT);
    let hits = scan(&procs);
    let bar = hits.iter().find(|c| c.name == "bar").expect("waybar detected");
    assert!(matches!(bar.status, Status::Info(_)));
}

#[test]
fn idle_installed_binary_is_not_a_conflict() {
    // dunst installed but not running: absent from the bus, no hit.
    let procs = vec!["Hyprland".to_string(), "kitty".to_string()];
    assert!(scan(&procs).is_empty());
}

#[test]
fn empty_snapshot_yields_nothing() {
    assert!(scan(&[]).is_empty());
    assert!(parse_processes("").is_empty());
}

#[test]
fn all_off_config_enables_only_bar() {
    let cfg = generate(&[
        "omarchy.lock".to_owned(),
        NOTIFICATIONS.to_owned(),
        POLKIT.to_owned(),
    ]);
    assert_eq!(enabled_components(&cfg), [BAR]);
}

#[test]
fn stock_empty_config_enables_everything_first_party() {
    // No disabledPlugins → nothing disabled (upstream contract).
    assert_eq!(
        enabled_components(&to_json(&parse("{}"))),
        [BAR, NOTIFICATIONS, POLKIT]
    );
}

#[test]
fn removing_a_component_from_disabled_enables_it() {
    let mut cfg = from_json(&generate(&[NOTIFICATIONS.to_owned(), POLKIT.to_owned()]));
    // `select enable` drops the id from disabledPlugins[].
    cfg["disabledPlugins"] = serde_json::Value::Array(vec![serde_json::Value::String(POLKIT.to_owned())]);
    assert_eq!(enabled_components(&to_json(&cfg)), [BAR, NOTIFICATIONS]);
}

#[test]
fn custom_bar_id_disables_the_omarchy_bar_row() {
    let mut cfg = from_json(&generate(&[NOTIFICATIONS.to_owned(), POLKIT.to_owned()]));
    cfg["bar"]["id"] = serde_json::Value::String("mylayout.bar".to_owned());
    assert_eq!(enabled_components(&to_json(&cfg)), Vec::<String>::new());
}

#[test]
fn explicit_omarchy_bar_id_is_enabled() {
    let cfg = generate(&[]);
    // Empty disabledPlugins disables nothing: bar + all first-party on.
    assert_eq!(enabled_components(&cfg), [BAR, NOTIFICATIONS, POLKIT]);
}

#[test]
fn config_checks_degrade_by_what_was_found() {
    // No shell.json: nothing enabled yet, nothing scanned.
    assert!(config_checks(None, Some(SNAPSHOT)).is_empty());
    // Unparseable shell.json: one warning.
    let rows = config_checks(Some(None), Some(SNAPSHOT));
    assert_eq!(rows.len(), 1);
    assert_eq!(rows[0].name, "shell.json");
    assert!(matches!(rows[0].status, Status::Warn(_)));
    // Stock config with the bus unavailable: the scan is skipped with a warning.
    let stock = to_json(&parse("{}"));
    let rows = config_checks(Some(Some(&stock)), None);
    assert_eq!(rows.len(), 1);
    assert_eq!(rows[0].name, "conflicts");
    // Stock config with the bus listed: the matrix runs.
    let rows = config_checks(Some(Some(&stock)), Some(SNAPSHOT));
    assert!(rows.iter().any(|c| c.name == "omarchy.notifications"));
    // All-off config: only the bar is enabled, so mako is no conflict.
    let off = generate(&[NOTIFICATIONS.to_owned(), POLKIT.to_owned()]);
    let rows = config_checks(Some(Some(&off)), Some(SNAPSHOT));
    assert!(rows.iter().all(|c| c.name == "bar"));
}

#[test]
fn prepend_bin_prefixes_pin_bin() {
    assert_eq!(prepend_bin("/p/omarchy@abc", "/usr/bin:/bin"), "/p/omarchy@abc/bin:/usr/bin:/bin");
}

#[test]
fn build_sets_omarchy_path_and_prepends() {
    let env = build("/p/omarchy@abc", "/usr/bin");
    assert_eq!(env[0], ("OMARCHY_PATH".to_owned(), "/p/omarchy@abc".to_owned()));
    assert_eq!(env[1], ("PATH".to_owned(), "/p/omarchy@abc/bin:/usr/bin".to_owned()));
}

#[test]
fn shell_exports_spell_the_same_contract() {
    assert_eq!(
        shell_exports("/p/omarchy@abc"),
        "export OMARCHY_PATH=\"/p/omarchy@abc\"; export PATH=\"/p/omarchy@abc/bin:$PATH\";"
    );
}
