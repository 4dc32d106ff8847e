use omarchy_plugin_bridge::pin::{PinLock, PreviousPin};
use omarchy_plugin_bridge::shelljson::ReconcileReport;
use omarchy_plugin_bridge::update::{
    confirmation, dependency_gate, fetch_refspecs, parse_rename, prunable, render_preview,
    render_report, rollback_header, rollback_plan, rolled_back, settled_plan, up_to_date_plan, UpdateError,
    UpdatePlan,
};

#[test]
fn render_preview_up_to_date() {
    let p = UpdatePlan {
        reference: "v4.0.0".into(),
        previous_reference: "v4.0.0".into(),
        log: vec![],
        stat: String::new(),
    };
    let s = render_preview(&p);
    assert!(s.contains("v4.0.0 -> v4.0.0"));
    assert!(s.contains("already up to date"));
}

#[test]
fn render_preview_lists_scoped_commits_and_stat() {
    let p = UpdatePlan {
        reference: "v4.1.0".into(),
        previous_reference: "v4.0.0".into(),
        log: vec!["abcdef0 bump shell".into()],
        stat: " shell/b.qml | 1 +\n 1 file changed".into(),
    };
    let s = render_preview(&p);
    assert!(s.contains("abcdef0 bump shell"));
    assert!(s.contains("shell/b.qml | 1 +"));
}

#[test]
fn render_preview_notes_empty_scoped_diff() {
    let p = UpdatePlan {
        reference: "v4.1.0".into(),
        previous_reference: "v4.0.0".into(),
        log: vec![],
        stat: String::new(),
    };
    assert!(render_preview(&p).contains("no commits touch"));
}

#[test]
fn render_preview_exact_text() {
    let p = UpdatePlan {
        reference: "v4.1.0".into(),
        previous_reference: "v4.0.0".into(),
        log: vec!["abcdef0 bump shell".into()],
        stat: " shell/b.qml | 1 +\n 1 file changed".into(),
    };
    assert_eq!(
        render_preview(&p),
        "opb update: v4.0.0 -> v4.1.0\ncommits touching shell/ or bin/:\n  abcdef0 bump shell\nfiles changed:\n   shell/b.qml | 1 +\n   1 file changed\n"
    );
}

#[test]
fn plan_short_circuits_when_already_on_target() {
    let plan = up_to_date_plan("v4.0.0");
    assert!(plan.is_up_to_date());
    assert!(plan.log.is_empty());
    assert!(plan.stat.is_empty());
}

#[test]
fn parse_rename_accepts_old_new_pairs() {
    assert_eq!(
        parse_rename("omarchy.model-usage=omarchy.agents").unwrap(),
        ("omarchy.model-usage".to_owned(), "omarchy.agents".to_owned())
    );
    let (_, to) = parse_rename("a=b=c").unwrap();
    assert_eq!(to, "b=c");
}

#[test]
fn parse_rename_rejects_malformed() {
    assert!(parse_rename("no-separator").is_err());
    assert!(parse_rename("=new").is_err());
    assert!(parse_rename("old=").is_err());
}

#[test]
fn parse_rename_errors_name_the_problem() {
    assert_eq!(
        parse_rename("no-separator").unwrap_err().message(),
        "--rename expects OLD=NEW (e.g. --rename omarchy.model-usage=omarchy.agents)"
    );
    assert_eq!(
        parse_rename("old=").unwrap_err().message(),
        "--rename sides must be non-empty: old="
    );
}

#[test]
fn render_report_covers_all_sections() {
    let report = ReconcileReport {
        renamed: vec![("omarchy.a".into(), "omarchy.b".into())],
        pruned: vec!["omarchy.gone".into()],
        appeared: vec!["omarchy.new1".into(), "omarchy.new2".into()],
        appeared_kept_off: true,
    };
    let s = render_report(&report);
    assert!(s.contains("renamed: omarchy.a -> omarchy.b"));
    assert!(s.contains("pruned (no longer shipped): omarchy.gone"));
    assert!(s.contains("kept off (all-off selection preserved)"));
    assert!(s.contains("omarchy.new1, omarchy.new2"));
}

#[test]
fn render_report_states_upstream_default_posture() {
    let report = ReconcileReport {
        appeared: vec!["omarchy.new1".into()],
        appeared_kept_off: false,
        ..Default::default()
    };
    assert!(render_report(&report).contains("enabled by upstream default"));
}

#[test]
fn rollback_without_previous_is_an_error() {
    let lock = PinLock::stable("v4.0.0", "aaa");
    let err = rolled_back(&lock).unwrap_err();
    assert_eq!(err, UpdateError::NoPrevious);
    assert!(err.message().contains("no previous generation"), "got: {}", err.message());
}

#[test]
fn rollback_flips_to_previous_and_keeps_the_left_generation() {
    let lock = PinLock::stable("v4.1.0", "bbb").with_previous(&PinLock::stable("v4.0.0", "aaa"));
    let back = rolled_back(&lock).unwrap();
    assert_eq!(back.commit, "aaa");
    assert_eq!(back.reference, "v4.0.0");
    let prev = back.previous.clone().unwrap();
    assert_eq!((prev.reference.as_str(), prev.commit.as_str()), ("v4.1.0", "bbb"));
    // A second rollback undoes the first.
    assert_eq!(rolled_back(&back).unwrap(), lock);
}

#[test]
fn prune_keeps_active_and_previous_only() {
    let lock = PinLock::stable("v4.1.0", "bbb").with_previous(&PinLock::stable("v4.0.0", "aaa"));
    assert_eq!(prunable(&lock, "omarchy@aaa"), None);
    assert_eq!(prunable(&lock, "omarchy@bbb"), None);
    assert_eq!(prunable(&lock, "omarchy@ccc"), Some("ccc".to_owned()));
    // Scratch dirs belong to their own flows.
    assert_eq!(prunable(&lock, ".clone-tmp42"), None);
}

#[test]
fn confirmation_needs_a_yes_unless_skipped() {
    assert!(confirmation(true, None).is_ok());
    assert!(confirmation(false, Some(" Yes \n")).is_ok());
    assert_eq!(confirmation(false, Some("n\n")), Err(UpdateError::Aborted));
    assert_eq!(confirmation(false, Some("\n")), Err(UpdateError::Aborted));
    assert_eq!(confirmation(false, None), Err(UpdateError::NoConfirmation));
    assert_eq!(UpdateError::NoConfirmation.message(), "aborted (no confirmation)");
}

#[test]
fn failing_dependency_report_stops_the_update() {
    assert!(dependency_gate(0).is_ok());
    assert_eq!(dependency_gate(1), Err(UpdateError::DependencyChecksFailed));
}

#[test]
fn refspecs_fetch_into_the_scratch_namespace() {
    assert_eq!(
        fetch_refspecs("v4.0.0", "v4.1.0"),
        ("+v4.0.0:refs/opb/from".to_owned(), "+v4.1.0:refs/opb/to".to_owned())
    );
}

#[test]
fn rollback_header_names_both_generations() {
    let lock = PinLock::stable("v4.1.0", "bbbbbbbbbbbb").with_previous(&PinLock::stable("v4.0.0", "aaaaaaaaaaaa"));
    let prev = PreviousPin { reference: "v4.0.0".into(), commit: "aaaaaaaaaaaa".into() };
    assert_eq!(
        rollback_header(&lock, &prev),
        "opb update rollback: bbbbbbbb (v4.1.0) -> aaaaaaaa (v4.0.0)"
    );
}

#[test]
fn rollback_when_previous_dir_vanished_is_an_error() {
    let lock = PinLock::stable("v4.1.0", "bbbbbbbbbbbb").with_previous(&PinLock::stable("v4.0.0", "aaaaaaaaaaaa"));
    let err = rollback_plan(&lock, false).unwrap_err();
    assert_eq!(err, UpdateError::PreviousGone("aaaaaaaa".into()));
    assert_eq!(err.message(), "previous generation dir for aaaaaaaa is gone — cannot roll back");
    assert_eq!(rollback_plan(&lock, true).unwrap(), rolled_back(&lock).unwrap());
    assert_eq!(rollback_plan(&PinLock::stable("v4.0.0", "a"), true), Err(UpdateError::NoPrevious));
}

#[test]
fn plan_requires_a_lock() {
    let err = settled_plan(None, "v4.1.0").unwrap_err();
    assert!(err.message().contains("not bootstrapped"), "got: {}", err.message());
    let lock = PinLock::stable("v4.0.0", "aaa");
    let settled = settled_plan(Some(&lock), "v4.0.0").unwrap().unwrap();
    assert!(settled.is_up_to_date());
    assert!(settled.log.is_empty());
    assert_eq!(settled_plan(Some(&lock), "v4.1.0"), Ok(None));
}

#[test]
fn rollback_undoes_an_update() {
    let before = PinLock::stable("v4.0.0", "aaa");
    let updated = PinLock::stable("v4.1.0", "bbb").with_previous(&before);
    let back = rolled_back(&updated).unwrap();
    assert_eq!((back.reference.as_str(), back.commit.as_str()), ("v4.0.0", "aaa"));
    let prev = back.previous.unwrap();
    assert_eq!((prev.reference.as_str(), prev.commit.as_str()), ("v4.1.0", "bbb"));
}
