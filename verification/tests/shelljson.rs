use omarchy_plugin_bridge::json::Json;
use omarchy_plugin_bridge::shelljson::{
    first_party_non_bar_ids, generate, reconcile, ManifestInfo, ReconcileError,
};

fn to_json(v: &serde_json::Value) -> Json {
    match v {
        serde_json::Value::Null => Json::Null,
        serde_json::Value::Bool(b) => Json::Bool(*b),
        serde_json::Value::Number(n) => Json::Number(n.to_string()),
        serde_json::Value::String(s) => Json::Str(s.clone()),
        serde_json::Value::Array(a) => Json::Array(a.iter().map(to_json).collect()),
        serde_json::Value::Object(o) => {
            Json::Object(o.iter().map(|(k, x)| (k.clone(), to_json(x))).collect())
        }
    }
}

fn from_json(j: &Json) -> serde_json::Value {
    match j {
        Json::Null => serde_json::Value::Null,
        Json::Bool(b) => serde_json::Value::Bool(*b),
        Json::Number(n) => serde_json::from_str(n).unwrap(),
        Json::Str(s) => serde_json::Value::String(s.clone()),
        Json::Array(a) => serde_json::Value::Array(a.iter().map(from_json).collect()),
        Json::Object(fs) => {
            let mut m = serde_json::Map::new();
            for (k, x) in fs {
                m.insert(k.clone(), from_json(x));
            }
            serde_json::Value::Object(m)
        }
    }
}

fn parse(text: &str) -> serde_json::Value {
    serde_json::from_str(text).unwrap()
}

fn ids<const N: usize>(arr: [&str; N]) -> Vec<String> {
    arr.iter().map(|s| s.to_string()).collect()
}

fn renames<const N: usize>(arr: [(&str, &str); N]) -> Vec<(String, String)> {
    arr.iter().map(|(a, b)| (a.to_string(), b.to_string())).collect()
}

fn doc(disabled: &[&str], layout: &str) -> Json {
    let disabled: Vec<String> = disabled.iter().map(|s| format!("\"{s}\"")).collect();
    let text = format!(
        "{{\"version\": 1, \"bar\": {{\"id\": \"omarchy.bar\", \"layout\": {layout}}}, \"disabledPlugins\": [{}], \"plugins\": []}}",
        disabled.join(", ")
    );
    to_json(&parse(&text))
}

fn disabled_of(v: &Json) -> Vec<String> {
    from_json(v)["disabledPlugins"]
        .as_array()
        .unwrap()
        .iter()
        .map(|x| x.as_str().unwrap().to_owned())
        .collect()
}

const OLD_IDS: [&str; 3] = ["omarchy.clock", "omarchy.lock", "omarchy.model-usage"];
const NEW_IDS: [&str; 3] = ["omarchy.agents", "omarchy.clock", "omarchy.lock"];
const RENAMES: [(&str, &str); 1] = [("omarchy.model-usage", "omarchy.agents")];

#[test]
fn empty_input_is_minimal_bar_only() {
    let v = from_json(&generate(&[]));
    assert_eq!(v["bar"]["id"], "omarchy.bar");
    for section in ["left", "center", "right"] {
        assert!(v["bar"]["layout"][section].as_array().unwrap().is_empty());
    }
    assert!(v["disabledPlugins"].as_array().unwrap().is_empty());
    assert!(v["plugins"].as_array().unwrap().is_empty());
}

#[test]
fn all_off_disables_every_first_party_id_sorted() {
    let ids = vec!["omarchy.lock".to_owned(), "omarchy.clock".to_owned()];
    assert_eq!(disabled_of(&generate(&ids)), ["omarchy.clock", "omarchy.lock"]);
}

#[test]
fn output_is_deterministic() {
    let ids = vec!["b".to_owned(), "a".to_owned(), "b".to_owned()];
    assert_eq!(from_json(&generate(&ids)), from_json(&generate(&ids)));
    assert_eq!(disabled_of(&generate(&ids)), ["a", "b"]);
}

#[test]
fn generated_document_keeps_its_key_order() {
    let text = serde_json::to_string(&from_json(&generate(&ids(["omarchy.x"])))).unwrap();
    assert_eq!(
        text,
        r#"{"version":1,"bar":{"id":"omarchy.bar","layout":{"left":[],"center":[],"right":[]}},"disabledPlugins":["omarchy.x"],"plugins":[]}"#
    );
}

#[test]
fn non_bar_ids_drop_the_bar_only() {
    let ms = vec![
        ManifestInfo { id: "omarchy.bar".into(), kinds: vec!["bar".into()] },
        ManifestInfo { id: "omarchy.clock".into(), kinds: vec!["bar-widget".into()] },
        ManifestInfo { id: "omarchy.idle".into(), kinds: vec!["service".into()] },
    ];
    assert_eq!(first_party_non_bar_ids(&ms), ["omarchy.clock", "omarchy.idle"]);
    assert!(first_party_non_bar_ids(&[]).is_empty());
}

#[test]
fn rename_applies_across_layout_strings_objects_and_disabled() {
    let d = doc(
        &["omarchy.clock", "omarchy.model-usage"],
        r#"{"left": ["omarchy.clock"], "center": [{"id": "omarchy.model-usage", "hideTotal": true}], "right": []}"#,
    );
    let (v, report) = reconcile(d, &ids(OLD_IDS), &ids(NEW_IDS), &renames(RENAMES)).unwrap();
    let j = from_json(&v);
    assert_eq!(j["bar"]["layout"]["center"][0]["id"], "omarchy.agents");
    // Object settings survive the id rewrite.
    assert_eq!(j["bar"]["layout"]["center"][0]["hideTotal"], true);
    assert_eq!(disabled_of(&v), ["omarchy.clock", "omarchy.agents"]);
    assert_eq!(report.renamed, vec![("omarchy.model-usage".to_owned(), "omarchy.agents".to_owned())]);
    assert!(report.pruned.is_empty());
    // agents is a rename target → not reported as appeared.
    assert!(report.appeared.is_empty());
}

#[test]
fn rename_target_keeps_disabled_state() {
    // model-usage was explicitly off; after rename, agents must be off too.
    let d = doc(&["omarchy.model-usage"], "{}");
    let (v, _) = reconcile(d, &ids(OLD_IDS), &ids(NEW_IDS), &renames(RENAMES)).unwrap();
    assert_eq!(disabled_of(&v), ["omarchy.agents"]);
}

#[test]
fn unmatched_rename_is_not_reported_as_applied() {
    let d = doc(&["omarchy.clock"], "{}");
    let renames = renames([("omarchy.never-existed", "omarchy.whatever")]);
    let (_, report) = reconcile(d, &ids(["omarchy.clock"]), &ids(["omarchy.clock"]), &renames).unwrap();
    assert!(report.renamed.is_empty());
}

#[test]
fn gone_first_party_id_is_pruned_and_reported() {
    let old = ids(["omarchy.clock", "omarchy.gone"]);
    let new = ids(["omarchy.clock"]);
    let d = doc(&["omarchy.clock", "omarchy.gone"], "{}");
    let (v, report) = reconcile(d, &old, &new, &[]).unwrap();
    assert_eq!(disabled_of(&v), ["omarchy.clock"]);
    assert_eq!(report.pruned, ["omarchy.gone"]);
}

#[test]
fn unknown_entries_in_disabled_pass_through_untouched() {
    let old = ids(["omarchy.clock"]);
    let new = ids(["omarchy.clock"]);
    let d = doc(&["omarchy.clock", "user.third-party"], "{}");
    let (v, report) = reconcile(d, &old, &new, &[]).unwrap();
    assert_eq!(disabled_of(&v), ["omarchy.clock", "user.third-party"]);
    assert!(report.is_noop());
}

#[test]
fn appeared_ids_keep_all_off_posture_off() {
    // Every old first-party id disabled → selection was "everything off";
    // a bump must not silently enable the new component.
    let old = ids(["omarchy.clock"]);
    let new = ids(["omarchy.clock", "omarchy.fresh"]);
    let d = doc(&["omarchy.clock"], "{}");
    let (v, report) = reconcile(d, &old, &new, &[]).unwrap();
    assert_eq!(disabled_of(&v), ["omarchy.clock", "omarchy.fresh"]);
    assert_eq!(report.appeared, ["omarchy.fresh"]);
    assert!(report.appeared_kept_off);
}

#[test]
fn appeared_ids_follow_upstream_default_under_mixed_selection() {
    // lock enabled (not listed), clock off → mixed posture; new components
    // surface at upstream default (on) and are reported.
    let old = ids(["omarchy.clock", "omarchy.lock"]);
    let new = ids(["omarchy.clock", "omarchy.lock", "omarchy.fresh"]);
    let d = doc(&["omarchy.clock"], "{}");
    let (v, report) = reconcile(d, &old, &new, &[]).unwrap();
    assert_eq!(disabled_of(&v), ["omarchy.clock"]);
    assert_eq!(report.appeared, ["omarchy.fresh"]);
    assert!(!report.appeared_kept_off);
}

#[test]
fn third_party_content_and_unknown_keys_pass_through() {
    let mut d = from_json(&doc(&[], "{}"));
    d["plugins"] = parse(r#"[{"id": "user.cool-widget", "path": "/x"}]"#);
    d["customKey"] = parse(r#"{"nested": [1, 2]}"#);
    let (v, _) = reconcile(to_json(&d), &ids(OLD_IDS), &ids(NEW_IDS), &[]).unwrap();
    let v = from_json(&v);
    assert_eq!(v["plugins"], d["plugins"]);
    assert_eq!(v["customKey"], d["customKey"]);
    assert_eq!(v["version"], 1);
    assert_eq!(v["bar"]["id"], "omarchy.bar");
}

#[test]
fn malformed_disabled_plugins_is_an_error() {
    let d = to_json(&parse(r#"{"disabledPlugins": "not-an-array"}"#));
    let err = reconcile(d, &ids(OLD_IDS), &ids(NEW_IDS), &[]).unwrap_err();
    assert_eq!(err, ReconcileError::DisabledNotArray);
    assert!(err.message().contains("not an array"), "got: {}", err.message());

    let d = to_json(&parse("{}"));
    assert!(reconcile(d, &ids(OLD_IDS), &ids(NEW_IDS), &[]).is_err());
}

#[test]
fn rename_collision_in_disabled_dedupes_preserving_order() {
    // Both source and target were disabled; after mapping both entries
    // collapse into one.
    let old = ids(["omarchy.old-a"]);
    let new = ids(["omarchy.new-b"]);
    let renames = renames([("omarchy.old-a", "omarchy.new-b")]);
    let d = doc(&["omarchy.new-b", "omarchy.old-a"], "{}");
    let (v, _) = reconcile(d, &old, &new, &renames).unwrap();
    assert_eq!(disabled_of(&v), ["omarchy.new-b"]);
}

#[test]
fn generated_doc_does_not_depend_on_scan_order() {
    let a = generate(&["omarchy.b".to_owned(), "omarchy.a".to_owned()]);
    let b = generate(&["omarchy.a".to_owned(), "omarchy.b".to_owned(), "omarchy.a".to_owned()]);
    assert_eq!(from_json(&a), from_json(&b));
}

#[test]
fn all_off_selection_survives_a_bump_with_a_rename() {
    let old = ids(["omarchy.clock", "omarchy.model-usage"]);
    let new = ids(["omarchy.agents", "omarchy.clock", "omarchy.fresh"]);
    let d = doc(&["omarchy.clock", "omarchy.model-usage"], "{}");
    let (v, _) = reconcile(d, &old, &new, &renames([("omarchy.model-usage", "omarchy.agents")])).unwrap();
    let off = disabled_of(&v);
    for id in &new {
        assert!(off.contains(id), "{id} not disabled: {off:?}");
    }
}
