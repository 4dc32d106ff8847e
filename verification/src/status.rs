//! `opb status`: a minimal doctor over what opb owns — pin state, session
//! wiring, the shell process and the icon font. The observations (reading
//! the lock, probing files and processes) are made at the edge; the rows
//! and the exit code are decided here.
use vstd::prelude::*;

use crate::check::{any_fail, checks_view, lemma_labels_distinct, CheckResult, Report, Status};
use crate::fonts;
use crate::pin::{short, short_spec, PinLock};
use crate::text::{extend_str, string_of};

verus! {

/// A row as shown: name, label, detail.
pub type RowView = (Seq<char>, Seq<char>, Option<Seq<char>>);

/// `ref @ short-commit`.
pub open spec fn pin_text(reference: Seq<char>, commit: Seq<char>) -> Seq<char> {
    reference + " @ "@ + short_spec(commit)
}

/// The pin row, from the lock as read (`Err`: unreadable, with why) and
/// whether the locked commit's pin dir exists.
pub open spec fn pin_row(lock: Result<Option<(Seq<char>, Seq<char>)>, Seq<char>>, present: bool) -> RowView {
    match lock {
        Ok(None) => ("pin"@, "INFO"@, Some("not bootstrapped — run `opb bootstrap`"@)),
        Err(e) => ("upstream.lock"@, "FAIL"@, Some("unreadable: "@ + e)),
        Ok(Some((reference, commit))) => if present {
            ("pin"@, "PASS"@, Some(pin_text(reference, commit)))
        } else {
            (
                "pin"@,
                "FAIL"@,
                Some("dir missing for "@ + pin_text(reference, commit) + " — run `opb bootstrap`"@),
            )
        },
    }
}

/// Session wiring is reported, never judged: installed and activated,
/// installed only, or absent.
pub open spec fn wiring_row(wired: bool, required: bool) -> RowView {
    if wired && required {
        ("session wiring"@, "PASS"@, Some("enabled (autostarts with Hyprland)"@))
    } else if wired {
        (
            "session wiring"@,
            "WARN"@,
            Some("installed but not activated — run `opb enable` to add require(\"opb\")"@),
        )
    } else {
        ("session wiring"@, "INFO"@, Some("disabled — `opb enable` to autostart"@))
    }
}

pub open spec fn process_row(running: bool) -> RowView {
    ("shell process"@, "INFO"@, Some(if running { "running"@ } else { "not running"@ }))
}

pub open spec fn font_row(present: bool) -> RowView {
    if present {
        (fonts::CHECK_NAME@, "PASS"@, None)
    } else {
        (fonts::CHECK_NAME@, "WARN"@, Some("not installed — `opb bootstrap` copies it from the pin"@))
    }
}

/// The lock as plain values: `(ref, commit)` when there is one.
pub open spec fn lock_read(lock: Result<Option<PinLock>, String>) -> Result<Option<(Seq<char>, Seq<char>)>, Seq<char>> {
    match lock {
        Ok(Some(l)) => Ok(Some((l.reference@, l.commit@))),
        Ok(None) => Ok(None),
        Err(e) => Err(e@),
    }
}

fn pin_check(lock: &Result<Option<PinLock>, String>, present: bool) -> (r: CheckResult)
    ensures
        checks_view(seq![r])[0] == pin_row(lock_read(*lock), present),
        (r.status is Fail) == (pin_row(lock_read(*lock), present).1 == "FAIL"@),
{
    proof {
        lemma_labels_distinct();
    }
    match lock {
        Ok(None) => CheckResult::info("pin", "not bootstrapped — run `opb bootstrap`"),
        Err(e) => {
            let mut v: Vec<char> = Vec::new();
            extend_str(&mut v, "unreadable: ");
            extend_str(&mut v, e.as_str());
            let d = string_of(v.as_slice());
            CheckResult::fail("upstream.lock", d.as_str())
        },
        Ok(Some(l)) => {
            let mut v: Vec<char> = Vec::new();
            if !present {
                extend_str(&mut v, "dir missing for ");
            }
            extend_str(&mut v, l.reference.as_str());
            extend_str(&mut v, " @ ");
            let s = short(l.commit.as_str());
            extend_str(&mut v, s.as_str());
            if present {
                let d = string_of(v.as_slice());
                CheckResult::pass_info("pin", d.as_str())
            } else {
                extend_str(&mut v, " — run `opb bootstrap`");
                let d = string_of(v.as_slice());
                CheckResult::fail("pin", d.as_str())
            }
        },
    }
}

fn wiring_check(wired: bool, required: bool) -> (r: CheckResult)
    ensures
        checks_view(seq![r])[0] == wiring_row(wired, required),
        !(r.status is Fail),
{
    if wired && required {
        CheckResult::pass_info("session wiring", "enabled (autostarts with Hyprland)")
    } else if wired {
        CheckResult::warn(
            "session wiring",
            "installed but not activated — run `opb enable` to add require(\"opb\")",
        )
    } else {
        CheckResult::info("session wiring", "disabled — `opb enable` to autostart")
    }
}

fn process_check(running: bool) -> (r: CheckResult)
    ensures
        checks_view(seq![r])[0] == process_row(running),
        !(r.status is Fail),
{
    if running {
        CheckResult::info("shell process", "running")
    } else {
        CheckResult::info("shell process", "not running")
    }
}

/// The four rows of `opb status`, in order: pin, session wiring, shell
/// process, icon font. Only the pin row can fail, so the exit code is
/// `FAIL` exactly when the lock is unreadable or its pin dir is missing.
pub fn report(
    lock: &Result<Option<PinLock>, String>,
    pin_dir_present: bool,
    wired: bool,
    required: bool,
    running: bool,
    font_present: bool,
) -> (r: Report)
    ensures
        checks_view(r.0@) == seq![
            pin_row(lock_read(*lock), pin_dir_present),
            wiring_row(wired, required),
            process_row(running),
            font_row(font_present),
        ],
        any_fail(r.0@) <==> (lock is Err || (lock matches Ok(Some(_)) && !pin_dir_present)),
{
    let a = pin_check(lock, pin_dir_present);
    let b = wiring_check(wired, required);
    let c = process_check(running);
    let d = fonts::check(font_present);
    let mut v: Vec<CheckResult> = Vec::new();
    v.push(a);
    v.push(b);
    v.push(c);
    v.push(d);
    proof {
        lemma_labels_distinct();
        assert(checks_view(v@) =~= seq![
            checks_view(seq![v@[0]])[0],
            checks_view(seq![v@[1]])[0],
            checks_view(seq![v@[2]])[0],
            checks_view(seq![v@[3]])[0],
        ]);
        if any_fail(v@) {
            let i = choose|i: int| 0 <= i < v@.len() && v@[i].status is Fail;
            assert(i == 0);
        }
        if lock is Err || (lock matches Ok(Some(_)) && !pin_dir_present) {
            assert(v@[0].status is Fail);
        }
    }
    Report(v)
}

} // verus!
