use omarchy_plugin_bridge::json::Json;
use omarchy_plugin_bridge::plugin_edit::{candidates, state_matches, Candidate};
use omarchy_plugin_bridge::plugin_list::{
    is_first_party, placed_section, render_rows, rows_from, state_of, Row, Scanned,
};
use omarchy_plugin_bridge::plugin_place::unplaced_widgets;
use omarchy_plugin_bridge::shelljson::{generate, ManifestInfo};

fn to_json(v: &serde_json::Value) -> Json {
    match v {
        serde_json::Value::Null => Json::Null,
        serde_json::Value::Bool(b) => Json::Bool(*b),
        serde_json::Value::Number(n) => Json::Number(n.to_string()),
        serde_json::Value::String(s) => Json::Str(s.clone()),
        serde_json::Value::Array(a) => Json::Array(a.iter().map(to_json).collect()),
        serde_json::Value::Object(o) => {
            Json::Object(o.iter().map(|(k, x)| (k.clone(), to_json(x))).collect())
        }
    }
}

fn from_json(j: &Json) -> serde_json::Value {
    match j {
        Json::Null => serde_json::Value::Null,
        Json::Bool(b) => serde_json::Value::Bool(*b),
        Json::Number(n) => serde_json::from_str(n).unwrap(),
        Json::Str(s) => serde_json::Value::String(s.clone()),
        Json::Array(a) => serde_json::Value::Array(a.iter().map(from_json).collect()),
        Json::Object(fs) => {
            let mut m = serde_json::Map::new();
            for (k, x) in fs {
                m.insert(k.clone(), from_json(x));
            }
            serde_json::Value::Object(m)
        }
    }
}

fn parse(text: &str) -> serde_json::Value {
    serde_json::from_str(text).unwrap()
}

fn scan(id: &str, kinds: &[&str], origin: &'static str) -> Scanned {
    Scanned {
        info: ManifestInfo { id: id.to_owned(), kinds: kinds.iter().map(|k| k.to_string()).collect() },
        origin,
    }
}

fn kinds(k: &str) -> Vec<String> {
    vec![k.to_owned()]
}

fn all_off() -> serde_json::Value {
    from_json(&generate(&[
        "omarchy.clock".to_owned(),
        "omarchy.notifications".to_owned(),
        "omarchy.polkit".to_owned(),
    ]))
}

#[test]
fn states_follow_storage_rules() {
    let mut doc = all_off();
    // First-party off (listed), third-party off (absent).
    assert_eq!(state_of(&to_json(&doc), &kinds("bar-widget"), "omarchy.clock"), "off");
    assert_eq!(state_of(&to_json(&doc), &kinds("panel"), "cool.panel"), "off");
    // Widget semantics: layout membership is the whole truth — even
    // unlisted, absent from the bar means off.
    doc["disabledPlugins"] = parse(r#"["omarchy.idle"]"#);
    assert_eq!(state_of(&to_json(&doc), &kinds("bar-widget"), "omarchy.clock"), "off");
    doc["bar"]["layout"]["left"] = parse(r#"["omarchy.clock"]"#);
    assert_eq!(state_of(&to_json(&doc), &kinds("bar-widget"), "omarchy.clock"), "on");
    // Third-party on via plugins[].
    assert_eq!(state_of(&to_json(&doc), &kinds("panel"), "cool.panel"), "off");
    doc["plugins"] = parse(r#"["cool.panel"]"#);
    assert_eq!(state_of(&to_json(&doc), &kinds("panel"), "cool.panel"), "on");
    // Bar kind is always active regardless of everything else.
    assert_eq!(state_of(&to_json(&doc), &kinds("bar"), "omarchy.bar"), "bar");
}

fn scanned_tree() -> Vec<Scanned> {
    vec![
        scan("omarchy.clock", &["bar-widget"], "first-party"),
        scan("omarchy.idle", &["service"], "first-party"),
        scan("omarchy.notifications", &["service"], "first-party"),
        scan("omarchy.polkit", &["service"], "first-party"),
        scan("cool.panel", &["panel"], "user"),
    ]
}

#[test]
fn list_rows_reflect_doc_and_gate_conflicts_on_enabled_set() {
    let seeded = from_json(&generate(&[
        "omarchy.clock".to_owned(),
        "omarchy.idle".to_owned(),
        "omarchy.notifications".to_owned(),
        "omarchy.polkit".to_owned(),
    ]));
    // All-off: no conflicts even with every colliding daemon live.
    let procs = vec!["mako".to_owned(), "hyprpolkitagent".to_owned(), "waybar".to_owned()];
    let rows = rows_from(&to_json(&seeded), &scanned_tree(), &procs);
    let clock = rows.iter().find(|r| r.id == "omarchy.clock").unwrap();
    assert_eq!((clock.state, clock.origin), ("off", "first-party"));
    assert!(clock.conflict.is_none());
    let panel = rows.iter().find(|r| r.id == "cool.panel").unwrap();
    assert_eq!(panel.origin, "user");
    // Rows come sorted by id.
    let ids: Vec<&str> = rows.iter().map(|r| r.id.as_str()).collect();
    let mut sorted = ids.clone();
    sorted.sort();
    assert_eq!(ids, sorted);

    // Enable notifications the way the shell would: delist it.
    let mut doc = seeded.clone();
    doc["disabledPlugins"] = parse(r#"["omarchy.clock", "omarchy.idle", "omarchy.polkit"]"#);
    let rows = rows_from(&to_json(&doc), &scanned_tree(), &procs);
    let notif = rows.iter().find(|r| r.id == "omarchy.notifications").unwrap();
    assert_eq!(notif.state, "on");
    assert!(notif.conflict.as_deref().is_some_and(|c| c.contains("mako")), "got: {:?}", notif.conflict);
    // Polkit stays clean: agent running but component still disabled.
    let polkit = rows.iter().find(|r| r.id == "omarchy.polkit").unwrap();
    assert!(polkit.conflict.is_none());
}

#[test]
fn render_aligns_and_hides_empty_conflict_column() {
    let rows = vec![Row {
        id: "a".to_owned(),
        origin: "user",
        kind: "panel".to_owned(),
        state: "on",
        conflict: None,
    }];
    let out = render_rows(&rows);
    assert!(!out.contains("CONFLICT"), "got: {out}");
    assert_eq!(
        out.lines().nth(1).unwrap().split_whitespace().collect::<Vec<_>>(),
        ["on", "a", "user", "panel"]
    );

    let warned = vec![Row {
        id: "b".to_owned(),
        origin: "first-party",
        kind: "-".to_owned(),
        state: "on",
        conflict: Some("mako owns the notifications bus name".to_owned()),
    }];
    let out = render_rows(&warned);
    assert!(out.contains("CONFLICT"), "got: {out}");
    assert!(out.lines().nth(1).unwrap().ends_with("mako owns the notifications bus name"));
}

#[test]
fn render_rows_exact_layout() {
    let rows = vec![
        Row { id: "omarchy.clock".into(), origin: "first-party", kind: "bar-widget".into(), state: "off", conflict: None },
        Row { id: "x".into(), origin: "user", kind: "-".into(), state: "on", conflict: None },
    ];
    assert_eq!(
        render_rows(&rows),
        "STATE  ID             ORIGIN       KIND\n\
         off    omarchy.clock  first-party  bar-widget\n\
         on     x              user         -\n"
    );
    assert_eq!(render_rows(&[]), "STATE  ID  ORIGIN  KIND\n");
}

#[test]
fn first_party_detection_is_namespace_exact() {
    assert!(is_first_party("omarchy.lock"));
    assert!(!is_first_party("third.party"));
    assert!(!is_first_party("omarchish")); // prefix must be the full segment
}

#[test]
fn lists_every_plugin_with_widget_vs_on_off_state() {
    let doc = to_json(&parse(
        r#"{"disabledPlugins": ["omarchy.background"], "bar": {"layout": {"left": ["omarchy.clock"], "center": [{"id": "omarchy.media"}], "right": []}}}"#,
    ));
    let scanned = vec![
        scan("omarchy.clock", &["bar-widget"], "first-party"),
        scan("omarchy.media", &["bar-widget"], "first-party"),
        scan("omarchy.agents", &["bar-widget"], "first-party"),
        scan("omarchy.background", &["service"], "first-party"),
        scan("omarchy.bar", &["bar"], "first-party"),
    ];
    let got = candidates(&doc, &scanned);
    // The bar itself is not editable.
    assert_eq!(got.len(), 4, "{got:?}");
    let by_id = |id: &str| got.iter().find(|c| c.id == id).unwrap();
    // Widgets report their section — string and object entries alike.
    assert_eq!(by_id("omarchy.clock").state, "left");
    assert!(by_id("omarchy.clock").is_widget);
    assert_eq!(by_id("omarchy.media").state, "center");
    assert!(by_id("omarchy.media").is_widget);
    assert_eq!(by_id("omarchy.agents").state, "off");
    assert!(by_id("omarchy.agents").is_widget);
    // Non-widgets report on/off, never a section.
    assert!(!by_id("omarchy.background").is_widget);
    assert_eq!(by_id("omarchy.background").state, "off");
    assert_eq!(placed_section(&doc, "omarchy.media"), Some("center"));
    assert_eq!(placed_section(&doc, "omarchy.agents"), None);
}

fn candidate(id: &str, is_widget: bool) -> Candidate {
    Candidate {
        id: id.to_owned(),
        origin: "first-party",
        state: "off".to_owned(),
        is_widget,
        kinds: if is_widget { vec!["bar-widget".to_owned()] } else { vec!["service".to_owned()] },
    }
}

#[test]
fn state_matches_tracks_the_action_target() {
    let base = parse(
        r#"{"version": 1, "disabledPlugins": [], "bar": {"layout": {"left": ["omarchy.clock"], "center": [], "right": []}}, "plugins": ["cool.panel"]}"#,
    );
    let doc = to_json(&base);
    let clock = candidate("omarchy.clock", true);
    // Placed left: "off" has not landed yet, "left" already holds.
    assert!(!state_matches(&doc, &clock, "off"));
    assert!(state_matches(&doc, &clock, "left"));
    // Widget not placed: only "off" holds.
    let agents = candidate("omarchy.agents", true);
    assert!(state_matches(&doc, &agents, "off"));
    assert!(!state_matches(&doc, &agents, "center"));
    // First-party service enabled (unlisted): "on" holds, "off" pending.
    let idle = candidate("omarchy.idle", false);
    assert!(state_matches(&doc, &idle, "on"));
    assert!(!state_matches(&doc, &idle, "off"));
    // Third-party panel present in plugins[]: on, not off.
    let panel = Candidate {
        id: "cool.panel".to_owned(),
        origin: "user",
        state: "on".to_owned(),
        is_widget: false,
        kinds: vec!["panel".to_owned()],
    };
    assert!(state_matches(&doc, &panel, "on"));
    assert!(!state_matches(&doc, &panel, "off"));
    // Listing the service disabled flips both ways.
    let mut off_doc = base;
    off_doc["disabledPlugins"] = parse(r#"["omarchy.idle"]"#);
    let off_doc = to_json(&off_doc);
    assert!(state_matches(&off_doc, &idle, "off"));
    assert!(!state_matches(&off_doc, &idle, "on"));
}

#[test]
fn only_unplaced_bar_widgets_are_placeable() {
    let doc = to_json(&parse(
        r#"{"disabledPlugins": [], "bar": {"layout": {"left": ["omarchy.clock"], "center": [], "right": []}}}"#,
    ));
    let scanned = vec![
        scan("omarchy.clock", &["bar-widget"], "first-party"),
        scan("omarchy.cpu", &["bar-widget"], "first-party"),
        scan("omarchy.notifications", &["service"], "first-party"),
        scan("cool.panel", &["panel"], "user"),
        scan("omarchy.bar", &["bar"], "first-party"),
    ];

    let got = unplaced_widgets(&doc, &scanned);
    assert_eq!(got.len(), 1, "{got:?}");
    assert_eq!(got[0].id, "omarchy.cpu");

    // Once placed, it drops out.
    let doc = to_json(&parse(
        r#"{"disabledPlugins": [], "bar": {"layout": {"left": ["omarchy.clock", "omarchy.cpu"], "center": [], "right": []}}}"#,
    ));
    assert!(unplaced_widgets(&doc, &scanned).is_empty());
}
