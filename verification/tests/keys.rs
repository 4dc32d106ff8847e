use omarchy_plugin_bridge::keys::{
    action_already_bound, actions_from_binds, append_source, bind_state, bound_combos,
    collision_excluding, combo_reply, edit_label, enabled_entries, entry_count, existing_combo_conflict,
    initial_combo, is_reload_event, lookup_entry, off_note, parse_binds, parse_combo, parse_pid,
    plan_binding, plan_removal, render, render_entry, rewrite_action_block, short_name, unbind_code,
    Action, BindState, BindingError, Combo, ComboError, ComboReply, Entry, LiveBind, LiveCheck,
    LookupError, UpstreamBind, MOD_CTRL, MOD_SHIFT, MOD_SUPER,
};

#[test]
fn parses_single_line_binds_with_and_without_opts() {
    let src = r#"o.bind("SUPER + SPACE", "Omarchy menu", "omarchy-menu toggle")
o.bind("XF86AudioPlay", "Play", "omarchy-shell media playPause", { locked = true })
o.bind("SUPER+X", "Other", "some-app --flag")
"#;
    // The parser is command-agnostic — non-shell commands come through
    // here and are dropped later, at classification.
    assert_eq!(
        parse_binds(src),
        vec![
            UpstreamBind {
                combo: "SUPER + SPACE".into(),
                desc: "Omarchy menu".into(),
                cmd: "omarchy-menu toggle".into(),
            },
            UpstreamBind {
                combo: "XF86AudioPlay".into(),
                desc: "Play".into(),
                cmd: "omarchy-shell media playPause".into(),
            },
            UpstreamBind {
                combo: "SUPER+X".into(),
                desc: "Other".into(),
                cmd: "some-app --flag".into(),
            },
        ]
    );
}

#[test]
fn skips_multiline_function_and_compound_calls() {
    let src = r#"-- comment mentioning o.bind( nothing
o.bind(
    "SUPER + CTRL + code:" .. tostring(panel + 9),
    "Bar panel " .. panel,
    "omarchy-shell -q shell togglePanelAt right " .. panel
)
o.bind("SUPER + CTRL + Z", "Zoom in", function()
  hl.config({ cursor = { zoom_factor = 1 } })
end)
o.bind("ALT + PRINT", "Screenrecording", "omarchy-capture-screenrecording --stop || omarchy-menu toggle capture")
"#;
    assert!(parse_binds(src).is_empty());
}

fn binds(c: &str, d: &str, m: &str) -> Vec<UpstreamBind> {
    vec![UpstreamBind { combo: c.into(), desc: d.into(), cmd: m.into() }]
}

#[test]
fn classifies_shell_toggle_menu_and_component_methods() {
    let a = actions_from_binds(&binds("K", "Audio", "omarchy-shell shell toggle omarchy.audio"));
    assert_eq!(a[0].id, "omarchy.audio:toggle");
    assert_eq!(a[0].plugin, "omarchy.audio");

    let n = actions_from_binds(&binds("C", "Dismiss last", "omarchy-shell notifications dismissOne"));
    assert_eq!(n[0].id, "notifications:dismissOne");
    assert_eq!(n[0].plugin, "omarchy.notifications");

    let q = actions_from_binds(&binds("Q", "Quick", "omarchy-shell -q shell toggle omarchy.clock"));
    assert_eq!(q[0].invocation, "omarchy-shell -q shell toggle omarchy.clock");
    assert_eq!(q[0].plugin, "omarchy.clock");

    let m = actions_from_binds(&binds("S", "Apps menu", "omarchy-menu toggle apps"));
    assert_eq!(m[0].id, "menu:apps");
    assert_eq!(m[0].plugin, "omarchy.menu");

    let mb = actions_from_binds(&binds("M", "Root menu", "omarchy-menu toggle"));
    assert_eq!(mb[0].id, "menu");

    // Not plugin interactions → dropped.
    assert!(actions_from_binds(&binds("T", "Tiling", "hl.dsp.exec_cmd('float')")).is_empty());
    assert!(actions_from_binds(&binds("W", "Web", "omarchy-launch-webapp example.com")).is_empty());
    assert!(actions_from_binds(&binds("R", "Record", "omarchy-capture-screenrecording")).is_empty());
}

#[test]
fn duplicate_ids_keep_first_combo_only() {
    let binds = vec![
        UpstreamBind {
            combo: "XF86AudioNext".into(),
            desc: "Next track".into(),
            cmd: "omarchy-shell media next".into(),
        },
        UpstreamBind {
            combo: "ALT + XF86AudioPlay".into(),
            desc: "Next track".into(),
            cmd: "omarchy-shell media next".into(),
        },
    ];
    let a = actions_from_binds(&binds);
    assert_eq!(a.len(), 1);
    assert_eq!(a[0].suggested_combo.as_deref(), Some("XF86AudioNext"));
}

fn entry(id: &str, plugin: &str, suggested: Option<&str>, state: &'static str, derived: bool) -> Entry {
    Entry {
        action: Action {
            id: id.into(),
            description: format!("desc {id}"),
            plugin: plugin.into(),
            invocation: "cmd".into(),
            suggested_combo: suggested.map(str::to_owned),
            derived,
        },
        state,
    }
}

#[test]
fn render_hides_disabled_unless_all_and_honors_plugin_filter() {
    let entries = vec![
        entry("a:toggle", "omarchy.a", Some("SUPER + X"), "on", false),
        entry("b:toggle", "omarchy.b", Some("SUPER + X"), "off", true),
    ];

    let default = render(&entries, "", false, None);
    assert!(default.contains("a:toggle"));
    assert!(!default.contains("b:toggle"));

    let everything = render(&entries, "", true, None);
    assert!(everything.contains("b:toggle"));
    assert!(everything.contains("[derived]"));

    let filtered = render(&entries, "", true, Some("omarchy.b"));
    assert!(!filtered.contains("a:toggle"));
    assert!(filtered.contains("b:toggle"));
}

#[test]
fn render_bind_column_reflects_keys_lua_state() {
    let entries = vec![
        entry("u:toggle", "omarchy.x", Some("SUPER + U"), "on", false), // unbound
        entry("s:toggle", "omarchy.x", Some("SUPER + S"), "on", false), // bound as suggested
        entry("c:toggle", "omarchy.x", Some("SUPER + C"), "on", false), // customized
    ];
    let keys = "-- opb: s:toggle | desc s\nhl.bind(\"SUPER + S\", …)\n\
                -- opb: c:toggle | desc c\nhl.bind(\"CTRL + C\", …)\n";

    let out = render(&entries, keys, true, None);
    let line = |id: &str| out.lines().find(|l| l.contains(id)).unwrap().to_owned();
    assert!(line("u:toggle").starts_with("—"), "{}", line("u:toggle"));
    assert!(line("s:toggle").starts_with("✓"), "{}", line("s:toggle"));
    assert!(line("c:toggle").starts_with("✎"), "{}", line("c:toggle"));
    assert!(line("c:toggle").contains("CTRL + C"), "current combo shown");
}

#[test]
fn combo_parsing_covers_upstream_styles() {
    let c = parse_combo("SUPER + CTRL + E").unwrap();
    assert_eq!(c.modmask, MOD_SUPER | MOD_CTRL);
    assert_eq!(c.key, "E");
    assert_eq!(c.to_lua_string(), "SUPER + CTRL + E");

    let m = parse_combo("XF86AudioPlay").unwrap();
    assert_eq!(m.modmask, 0);
    assert_eq!(m.key, "XF86AUDIOPLAY");

    let code = parse_combo("SUPER + SHIFT + code:201").unwrap();
    assert_eq!(code.modmask, MOD_SUPER | MOD_SHIFT);
    assert_eq!(code.key, "code:201");

    assert!(parse_combo("").is_err());
    assert!(parse_combo("SUPER +").is_err(), "trailing plus = no key");
    assert!(parse_combo("SUPER + A + B").is_err());
}

#[test]
fn combo_errors_carry_the_input() {
    assert_eq!(parse_combo("SUPER + A + B"), Err(ComboError::MoreThanOneKey("SUPER + A + B".into())));
    assert_eq!(parse_combo("SUPER +"), Err(ComboError::NoKey("SUPER +".into())));
}

#[test]
fn printed_combos_parse_back_to_themselves() {
    for s in ["SUPER + CTRL + E", "shift+alt+x", "MOD + control + code:12", "XF86AudioPlay", " ctrl +  f1 "] {
        let c = parse_combo(s).unwrap();
        assert_eq!(parse_combo(&c.to_lua_string()).unwrap(), c, "{s}");
    }
}

#[test]
fn collision_matches_modmask_and_key_case_insensitively() {
    let live = vec![
        LiveBind { modmask: 64, key: "Q".into(), keycode: 0 },
        LiveBind { modmask: 68, key: "down".into(), keycode: 0 },
        LiveBind { modmask: 0, key: "XF86PowerOff".into(), keycode: 0 },
        LiveBind { modmask: 64, key: "".into(), keycode: 210 },
    ];
    let hit = |s: &str| collision_excluding(&parse_combo(s).unwrap(), &live, None);
    assert_eq!(hit("SUPER + q").as_deref(), Some("SUPER + Q"));
    assert_eq!(hit("SUPER + CTRL + Down").as_deref(), Some("SUPER + CTRL + down"));
    assert_eq!(hit("xf86poweroff").as_deref(), Some("XF86PowerOff"));
    assert_eq!(hit("SUPER + code:210").as_deref(), Some("SUPER + code:210"));
    assert_eq!(hit("SUPER + E"), None);
    assert_eq!(hit("SHIFT + SUPER + q"), None, "different mask = free");
    // The action's own current combo is exempt.
    let own = parse_combo("SUPER + Q").unwrap();
    assert_eq!(collision_excluding(&own, &live, Some(&own)), None);
}

fn emojis() -> Action {
    Action {
        id: "omarchy.emojis:toggle".into(),
        description: "Emojis \"quoted\"".into(),
        plugin: "omarchy.emojis".into(),
        invocation: "omarchy-shell shell toggle omarchy.emojis".into(),
        suggested_combo: None,
        derived: false,
    }
}

#[test]
fn entry_render_is_self_contained_and_quoted() {
    let action = emojis();
    let s = render_entry("/pins/a", &action, &parse_combo("SUPER + CTRL + E").unwrap());
    assert!(s.starts_with("-- opb: omarchy.emojis:toggle"));
    // Long-bracket Lua string: both quote flavors inside, no escaping.
    let expected_cmd = "hl.dsp.exec_cmd([[sh -c 'export OMARCHY_PATH=\"/pins/a\"; \
                        export PATH=\"/pins/a/bin:$PATH\"; exec omarchy-shell shell toggle omarchy.emojis']])";
    assert!(s.contains(expected_cmd), "{s}");
    assert!(s.contains("description = \"Emojis \\\"quoted\\\"\""));
    assert!(!s.contains('\r'));
}

#[test]
fn append_source_creates_header_and_normalizes_trailing_newline() {
    // Empty source → header prepended.
    let src = append_source("", "-- first\nhl.bind(X)\n");
    assert!(src.starts_with("-- opb keybinds (user-owned)"));
    assert!(src.ends_with("hl.bind(X)\n"));

    // Source without trailing newline gets one before the next entry.
    let merged = append_source("tail_var = 1", "-- second\nnext_var = 2\n");
    assert!(merged.contains("tail_var = 1\n-- second\n"));
}

#[test]
fn self_conflict_detection_by_combo_and_action_marker() {
    let src = "-- opb: menu:apps | Apps menu\nhl.bind(\"SUPER + ALT + SPACE\", …)\n";
    assert!(action_already_bound(src, "menu:apps"));
    assert!(!action_already_bound(src, "menu"));

    let apps = parse_combo("SUPER + ALT + SPACE").unwrap();
    assert_eq!(existing_combo_conflict(src, &apps).as_deref(), Some("SUPER + ALT + SPACE"));
    assert!(existing_combo_conflict(src, &parse_combo("SUPER + SPACE").unwrap()).is_none());
}

#[test]
fn enabled_filters_disabled_but_keeps_bound() {
    let entries = vec![
        entry("a:toggle", "omarchy.a", Some("SUPER + A"), "on", false),
        entry("b:toggle", "omarchy.b", Some("SUPER + B"), "off", false),
        // derived → no upstream combo → still offered
        entry("c:toggle", "omarchy.c", None, "on", false),
    ];

    let got = enabled_entries(&entries);
    assert_eq!(got.len(), 2);
    assert_eq!(got[0].action.id, "a:toggle");
    assert_eq!(got[1].action.id, "c:toggle");
}

fn plain(id: &str, suggested: Option<&str>) -> Action {
    Action {
        id: id.into(),
        description: "d".into(),
        plugin: "omarchy.x".into(),
        invocation: "cmd".into(),
        suggested_combo: suggested.map(str::to_owned),
        derived: false,
    }
}

#[test]
fn bound_combos_parses_markers_and_state_classification() {
    let keys = "-- opb: a:toggle | desc a\nhl.bind(\"SUPER + A\", …)\n\
                -- opb: b:toggle | desc b\nhl.bind(\"SUPER + SHIFT + B\", …)\n";
    let combos = bound_combos(keys);
    assert_eq!(combos.get("a:toggle").map(Combo::to_lua_string).as_deref(), Some("SUPER + A"));
    assert_eq!(
        combos.get("b:toggle").map(Combo::to_lua_string).as_deref(),
        Some("SUPER + SHIFT + B")
    );
    assert!(!combos.contains_key("c:toggle"));

    // Suggested match → ✓; divergence → ✎; none → —.
    assert_eq!(bind_state(&plain("a:toggle", Some("SUPER + A")), combos.get("a:toggle")), BindState::Suggested);
    assert_eq!(bind_state(&plain("b:toggle", Some("SUPER + B")), combos.get("b:toggle")), BindState::Customized);
    assert_eq!(bind_state(&plain("c:toggle", Some("SUPER + C")), combos.get("c:toggle")), BindState::Unbound);
    // Derived action (no suggestion): any bind reads as customized.
    let derived = Action { derived: true, ..plain("d:toggle", None) };
    assert_eq!(bind_state(&derived, combos.get("a:toggle")), BindState::Customized);
    // Foreign binds (no opb marker) are invisible to the resolver.
    let foreign = "-- mine\nhl.bind(\"SUPER + F\", …)\n";
    assert!(bound_combos(foreign).is_empty());
}

#[test]
fn rewrite_action_block_replaces_only_the_marked_entry() {
    let src = "-- opb: a:toggle | desc a\nhl.bind(\"SUPER + A\", …)\n\
               -- opb: b:toggle | desc b\nhl.bind(\"SUPER + B\", …)\n";
    let got = rewrite_action_block(src, "a:toggle", "-- opb: a:toggle | desc a\nhl.bind(\"SUPER + X\", …)\n");
    assert!(got.contains("SUPER + X"));
    assert!(!got.contains("SUPER + A"));
    // The untouched neighbor entry survives verbatim.
    assert!(got.contains("SUPER + B"));

    // Empty replacement = removal of exactly that block.
    let removed = rewrite_action_block(src, "b:toggle", "");
    assert!(!removed.contains("b:toggle"));
    assert!(removed.contains("SUPER + A"));
}

#[test]
fn write_binding_occupied_combo_never_shadows_silently() {
    let action = plain("x:toggle", None);
    let live = vec![LiveBind { modmask: MOD_SUPER, key: "Q".into(), keycode: 0 }];

    // Occupied combo: the plan says so, and nothing is written before a confirm.
    let p = plan_binding("", "/pins/abc", &action, "SUPER + q", Some(&live)).unwrap();
    assert_eq!(p.live, LiveCheck::Occupied("SUPER + Q".into()));

    // Free combo writes fine.
    let p = plan_binding("", "/pins/abc", &action, "SUPER + Z", Some(&live)).unwrap();
    assert_eq!(p.live, LiveCheck::Free);
    let first = p.next;

    // Rebinding the same action replaces its entry in place — one bind,
    // never a duplicate.
    let p = plan_binding(&first, "/pins/abc", &action, "SUPER + Y", Some(&live)).unwrap();
    let raw = p.next;
    assert_eq!(raw.matches("-- opb: x:toggle").count(), 1, "{raw}");
    assert!(raw.contains("SUPER + Y"), "{raw}");
    assert!(!raw.contains("SUPER + Z"), "{raw}");

    // Unbind removes the block; a second unbind has nothing to remove.
    let removed = plan_removal(&raw, "x:toggle").unwrap();
    assert!(!removed.contains("x:toggle"), "{removed}");
    assert_eq!(plan_removal(&removed, "x:toggle"), None);

    // Without hyprctl nothing is checked live.
    let p = plan_binding("", "/pins/abc", &action, "SUPER + Z", None).unwrap();
    assert_eq!(p.live, LiveCheck::Unavailable);
}

#[test]
fn duplicate_combo_for_another_action_is_refused() {
    let a = plain("a:toggle", None);
    let b = plain("b:toggle", None);
    let with_a = plan_binding("", "/p", &a, "SUPER + K", None).unwrap().next;
    match plan_binding(&with_a, "/p", &b, "super + k", None) {
        Err(BindingError::DuplicateCombo(w)) => assert_eq!(w, "SUPER + K"),
        other => panic!("expected a duplicate, got {other:?}"),
    }
    // The same action may rebind to its own combo.
    assert!(plan_binding(&with_a, "/p", &a, "SUPER + K", None).is_ok());
    assert!(matches!(plan_binding("", "/p", &a, "SUPER +", None), Err(BindingError::Combo(_))));
}

#[test]
fn editor_rows_and_prompts() {
    let a = plain("menu:apps", Some("SUPER + ALT + SPACE"));
    let label = edit_label(&a, None);
    assert_eq!(label, format!("{:<4} {:<20} {:<14} {}", "—", "menu:apps", "SUPER + ALT +…", "d"));
    assert_eq!(initial_combo(&a, None), "SUPER + ALT + SPACE");
    let bound = parse_combo("ctrl + k").unwrap();
    assert_eq!(initial_combo(&a, Some(&bound)), "CTRL + K");
    assert_eq!(initial_combo(&plain("x", None), None), "");
    assert_eq!(combo_reply("  "), ComboReply::Unbind);
    assert_eq!(combo_reply(" super + k "), ComboReply::Accept("super + k".into()));
    assert_eq!(combo_reply("SUPER + A + B"), ComboReply::Invalid);
}

#[test]
fn live_session_helpers() {
    let c = parse_combo("SUPER + E").unwrap();
    assert_eq!(unbind_code(&c), "hl.unbind(\"SUPER + E\")");
    let keys = "-- opb: a | x\nhl.bind()\n-- opb: b | y\nhl.bind()\n-- mine\n";
    assert_eq!(entry_count(keys), 2);
    assert_eq!(entry_count(""), 0);
    assert!(is_reload_event("configreloaded>>"));
    assert!(!is_reload_event("workspace>>2"));
    assert_eq!(parse_pid(" 1234\n"), Some(1234));
    assert_eq!(parse_pid("x"), None);
}

#[test]
fn keys_set_lookup() {
    let entries = vec![
        entry("a:toggle", "omarchy.a", None, "on", false),
        entry("b:toggle", "omarchy.b", None, "off", false),
    ];
    assert_eq!(lookup_entry(&entries, "b:toggle").unwrap().action.id, "b:toggle");
    let err = lookup_entry(&entries, "z").unwrap_err();
    assert_eq!(err, LookupError::UnknownAction("z".into()));
    assert_eq!(err.message(), "unknown action \"z\" — see `opb keys list [--all]`");
    assert_eq!(off_note(&entries[0]), None);
    assert_eq!(
        off_note(&entries[1]).unwrap(),
        "note: component omarchy.b is disabled — the bind will no-op until you enable it"
    );
}

#[test]
fn short_names_drop_the_namespace() {
    assert_eq!(short_name("omarchy.clock"), "clock");
    assert_eq!(short_name("menu"), "menu");
}

#[test]
fn set_then_read_gives_the_combo_back() {
    let action = plain("x:toggle", None);
    let other = plain("y:toggle", None);
    // Fresh file, a file with another action, and a rebind in place.
    let fresh = plan_binding("", "/pins/abc", &action, "super + ctrl + e", None).unwrap().next;
    assert_eq!(
        bound_combos(&fresh).get("x:toggle").map(Combo::to_lua_string).as_deref(),
        Some("SUPER + CTRL + E")
    );
    let mixed = plan_binding(&fresh, "/pins/abc", &other, "SUPER + Y", None).unwrap().next;
    let rebound = plan_binding(&mixed, "/pins/abc", &action, "ALT + F1", None).unwrap().next;
    let combos = bound_combos(&rebound);
    assert_eq!(combos.get("x:toggle").map(Combo::to_lua_string).as_deref(), Some("ALT + F1"));
    assert_eq!(combos.get("y:toggle").map(Combo::to_lua_string).as_deref(), Some("SUPER + Y"));
    // Unbinding reads back as unbound and leaves the neighbor alone.
    let removed = plan_removal(&rebound, "x:toggle").unwrap();
    assert!(bound_combos(&removed).get("x:toggle").is_none());
    assert_eq!(bound_combos(&removed).get("y:toggle").map(Combo::to_lua_string).as_deref(), Some("SUPER + Y"));
}

#[test]
fn setting_twice_leaves_one_bind() {
    let action = plain("x:toggle", None);
    let once = plan_binding("", "/pins/abc", &action, "SUPER + Z", None).unwrap().next;
    let twice = plan_binding(&once, "/pins/abc", &action, "SUPER + Y", None).unwrap().next;
    let combos = bound_combos(&twice);
    let binds: Vec<_> = combos.pairs().iter().filter(|(id, _)| id == "x:toggle").collect();
    assert_eq!(binds.len(), 1);
    assert_eq!(binds[0].1.to_lua_string(), "SUPER + Y");
}
