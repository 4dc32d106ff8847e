//! Requirement checks: are the binaries and the session environment there?
//! The probes themselves (PATH lookups, `--version` runs, environment reads)
//! happen at the edge; these functions judge what they found.
use vstd::prelude::*;

use crate::check::{CheckResult, Status};
use crate::text::{
    chars_of, debug_quoted, debug_str, extend_str, split_char, split_char_exec, string_of, trim,
    trim_exec, vviews, seq_eq, eq_str,
};
use crate::version::{dotted_spec, parse, parse_spec, version_lt, Version};

verus! {

/// The first `major.minor[.patch]` run in a tool's output.
pub fn version_parse(input: &str) -> (r: Option<Version>)
    ensures
        r == parse_spec(input@),
{
    parse(input)
}

pub open spec fn floor_spec() -> Version {
    Version { major: 0, minor: 3, patch: 1 }
}

/// The tested quickshell floor, 0.3.1.
pub fn quickshell_floor() -> (r: Version)
    ensures
        r == floor_spec(),
{
    Version { major: 0, minor: 3, patch: 1 }
}

/// The verdict on `quickshell --version` output (`None`: not on PATH).
pub open spec fn quickshell_status(probe: Option<Seq<char>>) -> (Seq<char>, Option<Seq<char>>) {
    match probe {
        None => ("FAIL"@, Some("not found in PATH"@)),
        Some(out) => match parse_spec(out) {
            None => ("WARN"@, Some("unparseable version output: "@ + debug_quoted(trim(out)))),
            Some(v) => if version_lt(v, floor_spec()) {
                ("WARN"@, Some(dotted_spec(v) + " below tested floor "@ + dotted_spec(floor_spec())))
            } else {
                ("PASS"@, Some(dotted_spec(v)))
            },
        },
    }
}

pub fn check_quickshell(probe: Option<&str>) -> (r: CheckResult)
    ensures
        r.name@ == "quickshell"@,
        (crate::check::label_spec(r.status), crate::check::detail_spec(r.status)) == quickshell_status(
            match probe {
                Some(p) => Some(p@),
                None => None,
            },
        ),
{
    let out = match probe {
        None => {
            return CheckResult::fail("quickshell", "not found in PATH");
        },
        Some(o) => o,
    };
    match parse(out) {
        None => {
            let oc = chars_of(out);
            let t = trim_exec(oc.as_slice());
            let ts = string_of(t.as_slice());
            let q = debug_str(ts.as_str());
            let mut m: Vec<char> = Vec::new();
            extend_str(&mut m, "unparseable version output: ");
            extend_str(&mut m, q.as_str());
            let ms = string_of(m.as_slice());
            CheckResult::warn("quickshell", ms.as_str())
        },
        Some(v) => {
            let floor = quickshell_floor();
            if v.is_below(&floor) {
                let mut m: Vec<char> = Vec::new();
                let a = v.dotted();
                let b = floor.dotted();
                extend_str(&mut m, a.as_str());
                extend_str(&mut m, " below tested floor ");
                extend_str(&mut m, b.as_str());
                let ms = string_of(m.as_slice());
                CheckResult::warn("quickshell", ms.as_str())
            } else {
                let a = v.dotted();
                CheckResult::pass_info("quickshell", a.as_str())
            }
        },
    }
}

/// A binary that only has to be on PATH.
pub fn check_bin(name: &'static str, present: bool) -> (r: CheckResult)
    ensures
        r.name == name,
        present ==> r.status == Status::Pass(None),
        !present ==> (r.status matches Status::Fail(d) && d@ == "not found in PATH"@),
{
    if present {
        CheckResult::pass(name)
    } else {
        CheckResult::fail(name, "not found in PATH")
    }
}

/// A Wayland session must be present: quickshell cannot attach without it.
pub fn check_wayland(display: Option<&str>) -> (r: CheckResult)
    ensures
        r.name@ == "WAYLAND_DISPLAY"@,
        match display {
            Some(d) if d@.len() > 0 => r.status matches Status::Pass(Some(x)) && x@ == d@,
            _ => r.status matches Status::Fail(x) && x@ == "not set (no Wayland session)"@,
        },
{
    match display {
        Some(d) => {
            let c = chars_of(d);
            if c.len() > 0 {
                return CheckResult::pass_info("WAYLAND_DISPLAY", d);
            }
        },
        None => {},
    }
    CheckResult::fail("WAYLAND_DISPLAY", "not set (no Wayland session)")
}

/// Is `Hyprland` one of the `:`-separated desktop names?
pub open spec fn names_hyprland(d: Seq<char>) -> bool {
    split_char(d, ':').contains("Hyprland"@)
}

/// Desktop detection is informational: hyprctl presence is the real signal.
pub fn check_desktop(desktop: Option<&str>) -> (r: CheckResult)
    ensures
        r.name@ == "XDG_CURRENT_DESKTOP"@,
        match desktop {
            Some(d) => if names_hyprland(d@) {
                r.status matches Status::Pass(Some(x)) && x@ == d@
            } else {
                r.status matches Status::Warn(x) && x@ == "session is "@ + debug_quoted(d@)
                    + ", expected Hyprland"@
            },
            None => r.status matches Status::Warn(x) && x@ == "not set"@,
        },
{
    match desktop {
        Some(d) => {
            let c = chars_of(d);
            let parts = split_char_exec(c.as_slice(), ':');
            let mut found = false;
            let mut i: usize = 0;
            while i < parts.len()
                invariant
                    i <= parts.len(),
                    vviews(parts@) == split_char(d@, ':'),
                    found == vviews(parts@).take(i as int).contains("Hyprland"@),
                decreases parts.len() - i,
            {
                let ghost t = vviews(parts@).take(i as int);
                let ghost x = vviews(parts@)[i as int];
                if eq_str(parts[i].as_slice(), "Hyprland") {
                    found = true;
                }
                proof {
                    assert(vviews(parts@).take(i + 1) =~= t.push(x));
                    let y = "Hyprland"@;
                    if t.push(x).contains(y) && !t.contains(y) {
                        let k = choose|k: int| 0 <= k < t.len() + 1 && t.push(x)[k] == y;
                        if k < t.len() {
                            assert(t[k] == y);
                        }
                    }
                    if t.contains(y) {
                        let k = choose|k: int| 0 <= k < t.len() && t[k] == y;
                        assert(t.push(x)[k] == y);
                    }
                    if x == y {
                        assert(t.push(x)[t.len() as int] == y);
                    }
                }
                i += 1;
            }
            assert(vviews(parts@).take(parts.len() as int) == vviews(parts@));
            if found {
                CheckResult::pass_info("XDG_CURRENT_DESKTOP", d)
            } else {
                let q = debug_str(d);
                let mut m: Vec<char> = Vec::new();
                extend_str(&mut m, "session is ");
                extend_str(&mut m, q.as_str());
                extend_str(&mut m, ", expected Hyprland");
                let ms = string_of(m.as_slice());
                CheckResult::warn("XDG_CURRENT_DESKTOP", ms.as_str())
            }
        },
        None => CheckResult::warn("XDG_CURRENT_DESKTOP", "not set"),
    }
}

/// What the dependency probes found: `quickshell --version` output (`None`
/// when not on PATH), whether `hyprctl`, `git` and `bash` are on PATH, and
/// the `WAYLAND_DISPLAY` and `XDG_CURRENT_DESKTOP` values.
pub struct Probes {
    pub quickshell: Option<String>,
    pub hyprctl: bool,
    pub git: bool,
    pub bash: bool,
    pub wayland_display: Option<String>,
    pub current_desktop: Option<String>,
}

pub open spec fn opt_view(o: Option<String>) -> Option<Seq<char>> {
    match o {
        Some(s) => Some(s@),
        None => None,
    }
}

pub open spec fn bin_row(c: CheckResult, name: Seq<char>, present: bool) -> bool {
    &&& c.name@ == name
    &&& present ==> c.status == Status::Pass(None)
    &&& !present ==> (c.status matches Status::Fail(d) && d@ == "not found in PATH"@)
}

pub open spec fn wayland_row(c: CheckResult, display: Option<Seq<char>>) -> bool {
    &&& c.name@ == "WAYLAND_DISPLAY"@
    &&& match display {
        Some(d) if d.len() > 0 => c.status matches Status::Pass(Some(x)) && x@ == d,
        _ => c.status matches Status::Fail(x) && x@ == "not set (no Wayland session)"@,
    }
}

pub open spec fn desktop_row(c: CheckResult, desktop: Option<Seq<char>>) -> bool {
    &&& c.name@ == "XDG_CURRENT_DESKTOP"@
    &&& match desktop {
        Some(d) => if names_hyprland(d) {
            c.status matches Status::Pass(Some(x)) && x@ == d
        } else {
            c.status matches Status::Warn(x) && x@ == "session is "@ + debug_quoted(d) + ", expected Hyprland"@
        },
        None => c.status matches Status::Warn(x) && x@ == "not set"@,
    }
}

/// The dependency report, in order: quickshell (with its version floor),
/// hyprctl, git, bash, the Wayland session and the desktop name. It gates
/// bootstrap and the pin flip of an update.
pub fn dependency_checks(p: &Probes) -> (r: crate::check::Report)
    ensures
        r.0@.len() == 6,
        r.0@[0].name@ == "quickshell"@,
        (crate::check::label_spec(r.0@[0].status), crate::check::detail_spec(r.0@[0].status))
            == quickshell_status(opt_view(p.quickshell)),
        bin_row(r.0@[1], "hyprctl"@, p.hyprctl),
        bin_row(r.0@[2], "git"@, p.git),
        bin_row(r.0@[3], "bash"@, p.bash),
        wayland_row(r.0@[4], opt_view(p.wayland_display)),
        desktop_row(r.0@[5], opt_view(p.current_desktop)),
{
    let mut v: Vec<CheckResult> = Vec::new();
    let q = match &p.quickshell {
        Some(s) => check_quickshell(Some(s.as_str())),
        None => check_quickshell(None),
    };
    v.push(q);
    v.push(check_bin("hyprctl", p.hyprctl));
    v.push(check_bin("git", p.git));
    v.push(check_bin("bash", p.bash));
    let w = match &p.wayland_display {
        Some(s) => check_wayland(Some(s.as_str())),
        None => check_wayland(None),
    };
    v.push(w);
    let d = match &p.current_desktop {
        Some(s) => check_desktop(Some(s.as_str())),
        None => check_desktop(None),
    };
    v.push(d);
    crate::check::Report(v)
}

} // verus!

