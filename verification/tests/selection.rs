use omarchy_plugin_bridge::json::Json;
use omarchy_plugin_bridge::select::{apply, apply_ready_exec, resolve_kind, Action, SelectError};
use omarchy_plugin_bridge::selection::{
    disable, enable, is_first_party, Outcome, PluginKind, Section, SelectionError, BAR_ID,
};
use omarchy_plugin_bridge::shelljson::{generate, ManifestInfo};

fn to_json(v: &serde_json::Value) -> Json {
    match v {
        serde_json::Value::Null => Json::Null,
        serde_json::Value::Bool(b) => Json::Bool(*b),
        serde_json::Value::Number(n) => Json::Number(n.to_string()),
        serde_json::Value::String(s) => Json::Str(s.clone()),
        serde_json::Value::Array(a) => Json::Array(a.iter().map(to_json).collect()),
        serde_json::Value::Object(o) => {
            Json::Object(o.iter().map(|(k, x)| (k.clone(), to_json(x))).collect())
        }
    }
}

fn from_json(j: &Json) -> serde_json::Value {
    match j {
        Json::Null => serde_json::Value::Null,
        Json::Bool(b) => serde_json::Value::Bool(*b),
        Json::Number(n) => serde_json::from_str(n).unwrap(),
        Json::Str(s) => serde_json::Value::String(s.clone()),
        Json::Array(a) => serde_json::Value::Array(a.iter().map(from_json).collect()),
        Json::Object(fs) => {
            let mut m = serde_json::Map::new();
            for (k, x) in fs {
                m.insert(k.clone(), from_json(x));
            }
            serde_json::Value::Object(m)
        }
    }
}

/// shell.json as written: pretty-printed with a trailing newline.
fn render(j: &Json) -> String {
    let mut s = serde_json::to_string_pretty(&from_json(j)).unwrap();
    s.push('\n');
    s
}

fn all_off_doc() -> Json {
    generate(&["omarchy.clock".to_owned(), "omarchy.lock".to_owned()])
}

fn clock_enabled_doc(section: Section) -> Json {
    let mut doc = all_off_doc();
    enable(&mut doc, "omarchy.clock", PluginKind::BarWidget, section).unwrap();
    doc
}

fn section_of(doc: &Json, s: Section) -> Vec<String> {
    from_json(doc)["bar"]["layout"][s.key()]
        .as_array()
        .unwrap()
        .iter()
        .map(|v| v.as_str().unwrap().to_owned())
        .collect()
}

fn strings(doc: &Json, key: &str) -> Vec<String> {
    from_json(doc)[key]
        .as_array()
        .unwrap()
        .iter()
        .map(|v| v.as_str().unwrap().to_owned())
        .collect()
}

#[test]
fn first_party_enable_delists_from_disabled_plugins() {
    let mut doc = all_off_doc();
    let out = enable(&mut doc, "omarchy.lock", PluginKind::Regular, Section::Right).unwrap();
    assert!(out.changed());
    assert_eq!(strings(&doc, "disabledPlugins"), ["omarchy.clock"]);
    // Regular first-party does not touch plugins[] or layout.
    assert!(strings(&doc, "plugins").is_empty());
    assert!(section_of(&doc, Section::Right).is_empty());
}

#[test]
fn widget_enable_places_in_requested_section() {
    let doc = clock_enabled_doc(Section::Center);
    assert!(!strings(&doc, "disabledPlugins").contains(&"omarchy.clock".to_owned()));
    assert_eq!(section_of(&doc, Section::Center), ["omarchy.clock"]);
    assert!(section_of(&doc, Section::Left).is_empty());
    assert!(section_of(&doc, Section::Right).is_empty());
}

#[test]
fn widget_already_in_layout_is_not_moved_or_duplicated() {
    let mut doc = clock_enabled_doc(Section::Left);
    let out = enable(&mut doc, "omarchy.clock", PluginKind::BarWidget, Section::Right).unwrap();
    assert_eq!(out, Outcome::Unchanged("already placed in the bar layout"));
    assert_eq!(section_of(&doc, Section::Left), ["omarchy.clock"]);
    assert!(section_of(&doc, Section::Right).is_empty());
}

#[test]
fn third_party_widget_enable_only_touches_layout() {
    let mut doc = all_off_doc();
    enable(&mut doc, "my.widget", PluginKind::BarWidget, Section::Left).unwrap();
    assert_eq!(section_of(&doc, Section::Left), ["my.widget"]);
    assert!(!strings(&doc, "disabledPlugins").contains(&"my.widget".to_owned()));
    assert!(strings(&doc, "plugins").is_empty());
}

#[test]
fn third_party_regular_enable_appends_to_plugins() {
    let mut doc = all_off_doc();
    enable(&mut doc, "cool.panel", PluginKind::Regular, Section::Right).unwrap();
    assert_eq!(strings(&doc, "plugins"), ["cool.panel"]);
}

#[test]
fn bar_enable_is_unchanged() {
    let mut doc = all_off_doc();
    let out = enable(&mut doc, BAR_ID, PluginKind::Regular, Section::Right).unwrap();
    assert_eq!(out, Outcome::Unchanged("the bar is always enabled"));
}

#[test]
fn bar_disable_refused() {
    let mut doc = all_off_doc();
    assert_eq!(disable(&mut doc, BAR_ID), Err(SelectionError::BarAlwaysOn));
}

#[test]
fn first_party_disable_inserts_sorted_and_scrubs_active_spots() {
    let mut doc = clock_enabled_doc(Section::Right); // clock active, not in disabledPlugins
    let out = disable(&mut doc, "omarchy.clock").unwrap();
    assert!(out.changed());
    assert_eq!(strings(&doc, "disabledPlugins"), ["omarchy.clock", "omarchy.lock"]);
    assert!(section_of(&doc, Section::Right).is_empty());
    assert!(strings(&doc, "plugins").is_empty());
}

#[test]
fn third_party_disable_scrubs_everywhere_and_never_disables_lists() {
    let mut doc = all_off_doc();
    enable(&mut doc, "cool.panel", PluginKind::Regular, Section::Right).unwrap();
    let out = disable(&mut doc, "cool.panel").unwrap();
    assert!(out.changed());
    assert!(strings(&doc, "plugins").is_empty());
    assert!(!strings(&doc, "disabledPlugins").contains(&"cool.panel".to_owned()));
}

#[test]
fn disabling_absent_third_party_is_unchanged() {
    let mut doc = all_off_doc();
    let out = disable(&mut doc, "ghost.plugin").unwrap();
    assert_eq!(out, Outcome::Unchanged("was not enabled"));
}

#[test]
fn unknown_top_level_fields_survive_every_edit() {
    let mut v = from_json(&all_off_doc());
    v["customField"] = serde_json::from_str(r#"{"nested": [1, 2]}"#).unwrap();
    let before = v.clone();
    let mut doc = to_json(&v);
    enable(&mut doc, "omarchy.lock", PluginKind::Regular, Section::Right).unwrap();
    disable(&mut doc, "omarchy.lock").unwrap();
    assert_eq!(from_json(&doc)["customField"], before["customField"]);
}

#[test]
fn key_order_preserved_through_edits() {
    // Hand-built doc with keys deliberately NOT in generated order.
    let raw = r#"{"zzz":1,"disabledPlugins":["omarchy.clock","omarchy.lock"],"aaa":2,"bar":{"id":"omarchy.bar","layout":{"right":[],"left":[],"center":[]}},"plugins":[]}"#;
    let mut doc = to_json(&serde_json::from_str(raw).unwrap());
    enable(&mut doc, "omarchy.lock", PluginKind::Regular, Section::Right).unwrap();
    let rendered = render(&doc);
    let zzz = rendered.find("\"zzz\"").unwrap();
    let aaa = rendered.find("\"aaa\"").unwrap();
    assert!(zzz < aaa, "original key order lost: {rendered}");
    let right = rendered.find("\"right\"").unwrap();
    let left = rendered.find("\"left\"").unwrap();
    assert!(right < left, "layout key order lost: {rendered}");
}

#[test]
fn round_trip_on_generated_doc_is_byte_identical() {
    let original = render(&all_off_doc());

    let mut doc = all_off_doc();
    enable(&mut doc, "omarchy.clock", PluginKind::BarWidget, Section::Right).unwrap();
    disable(&mut doc, "omarchy.clock").unwrap();
    assert_eq!(render(&doc), original);

    let mut doc = all_off_doc();
    enable(&mut doc, "cool.panel", PluginKind::Regular, Section::Left).unwrap();
    disable(&mut doc, "cool.panel").unwrap();
    assert_eq!(render(&doc), original);

    // Idempotence: repeated same-direction edits change nothing further,
    // and a full off→on→off cycle lands back on the generated state.
    let mut doc = all_off_doc();
    enable(&mut doc, "omarchy.lock", PluginKind::Regular, Section::Left).unwrap();
    let once = render(&doc);
    enable(&mut doc, "omarchy.lock", PluginKind::Regular, Section::Left).unwrap();
    assert_eq!(render(&doc), once);
    disable(&mut doc, "omarchy.lock").unwrap();
    disable(&mut doc, "omarchy.lock").unwrap();
    let mut fresh = all_off_doc();
    disable(&mut fresh, "omarchy.lock").unwrap();
    assert_eq!(render(&doc), render(&fresh));
}

#[test]
fn missing_containers_are_created_leniently() {
    // Hand-trimmed doc without disabledPlugins/plugins keys.
    let mut doc = to_json(
        &serde_json::from_str(
            r#"{"version":1,"bar":{"id":"omarchy.bar","layout":{"left":[],"center":[],"right":[]}}}"#,
        )
        .unwrap(),
    );
    enable(&mut doc, "omarchy.lock", PluginKind::Regular, Section::Right).unwrap();
    disable(&mut doc, "omarchy.lock").unwrap();
    assert!(strings(&doc, "disabledPlugins").contains(&"omarchy.lock".to_owned()));
}

#[test]
fn no_bar_object_is_an_error_for_widget_placement() {
    let mut doc = to_json(&serde_json::from_str(r#"{"version":1}"#).unwrap());
    let err = enable(&mut doc, "w", PluginKind::BarWidget, Section::Right).unwrap_err();
    assert!(err.message().contains("no bar object"), "got: {}", err.message());
}

#[test]
fn is_first_party_by_reserved_namespace() {
    assert!(is_first_party("omarchy.lock"));
    assert!(!is_first_party("third.party"));
    assert!(!is_first_party("omarchish")); // prefix must be the full segment
}

// --- select: ids resolved against the scanned manifests -----------------------

fn manifests() -> Vec<ManifestInfo> {
    vec![
        ManifestInfo { id: "omarchy.clock".into(), kinds: vec!["bar-widget".into()] },
        ManifestInfo { id: "omarchy.idle".into(), kinds: vec!["service".into()] },
        ManifestInfo { id: "cool.panel".into(), kinds: vec!["panel".into()] },
    ]
}

fn seeded() -> Json {
    generate(&["omarchy.clock".to_owned(), "omarchy.idle".to_owned()])
}

#[test]
fn resolves_widget_and_regular_kinds() {
    let ms = manifests();
    assert_eq!(resolve_kind(&ms, "omarchy.clock").unwrap(), PluginKind::BarWidget);
    assert_eq!(resolve_kind(&ms, "omarchy.idle").unwrap(), PluginKind::Regular);
    assert_eq!(resolve_kind(&ms, "cool.panel").unwrap(), PluginKind::Regular);
}

#[test]
fn unknown_id_lists_where_to_look() {
    let err = resolve_kind(&manifests(), "ghost").unwrap_err();
    assert!(err.message().contains("unknown plugin id"), "got: {}", err.message());
    assert_eq!(
        err.message(),
        "unknown plugin id 'ghost' — not in the pinned tree or ~/.config/omarchy/plugins (see available ids with `opb select list`)"
    );
}

#[test]
fn enable_writes_file_disable_restores_it_byte_identical() {
    let ms = manifests();
    let mut doc = seeded();
    let original = render(&doc);
    let enable = Action::Enable { id: "omarchy.clock".to_owned(), section: Section::Center };
    assert!(apply_ready_exec(&doc, &enable, &ms));
    let out = apply(&mut doc, &enable, &ms).unwrap();
    assert!(out.changed());
    let edited = render(&doc);
    assert!(edited.contains("\"center\": ["), "got: {edited}");
    assert_eq!(from_json(&doc)["bar"]["layout"]["center"][0], "omarchy.clock");
    assert_ne!(edited, original);

    let out = apply(&mut doc, &Action::Disable { id: "omarchy.clock".to_owned() }, &ms).unwrap();
    assert!(out.changed());
    assert_eq!(render(&doc), original);
}

#[test]
fn unchanged_outcome_skips_the_write() {
    let ms = manifests();
    let mut doc = seeded();
    let enable = Action::Enable { id: "omarchy.clock".to_owned(), section: Section::Center };
    assert!(apply(&mut doc, &enable, &ms).unwrap().changed());
    let after = render(&doc);
    // Second identical enable: no change.
    assert!(!apply(&mut doc, &enable, &ms).unwrap().changed());
    assert_eq!(render(&doc), after);
}

#[test]
fn bar_disable_refused_before_any_write() {
    let ms = manifests();
    let mut doc = seeded();
    let before = render(&doc);
    let err = apply(&mut doc, &Action::Disable { id: BAR_ID.to_owned() }, &ms).unwrap_err();
    assert!(err.message().contains("cannot be disabled"), "got: {}", err.message());
    assert_eq!(render(&doc), before);
}

#[test]
fn third_party_enable_lands_in_plugins_array() {
    let ms = manifests();
    let mut doc = seeded();
    apply(&mut doc, &Action::Enable { id: "cool.panel".to_owned(), section: Section::Right }, &ms).unwrap();
    assert_eq!(from_json(&doc)["plugins"][0], "cool.panel");
}

#[test]
fn unknown_id_changes_nothing() {
    let ms = manifests();
    let mut doc = seeded();
    let before = render(&doc);
    let err = apply(&mut doc, &Action::Enable { id: "ghost".into(), section: Section::Left }, &ms).unwrap_err();
    assert_eq!(err, SelectError::UnknownId("ghost".into()));
    assert_eq!(render(&doc), before);
}

#[test]
fn malformed_arrays_are_caught_before_the_edit() {
    let ms = manifests();
    let doc = to_json(&serde_json::from_str(r#"{"disabledPlugins": 3, "plugins": []}"#).unwrap());
    assert!(!apply_ready_exec(&doc, &Action::Disable { id: "omarchy.idle".into() }, &ms));
    assert!(apply_ready_exec(&doc, &Action::Disable { id: "cool.panel".into() }, &ms));
    assert!(apply_ready_exec(&doc, &Action::Disable { id: BAR_ID.into() }, &ms));
}
