//! `opb doctor`: the conflict matrix over live session-bus processes and the
//! components that `shell.json` enables. Running the probes is the caller's
//! part; deciding what they mean is here.
use vstd::prelude::*;

pub mod conflicts;
pub mod shellcfg;

use crate::check::CheckResult;
use crate::doctor::shellcfg::{enabled_components, enabled_spec};
use crate::json::Json;
use crate::doctor::conflicts::{parse_processes, scan_enabled, scan_enabled_spec, processes_spec};

verus! {

/// The conflict rows of a doctor run: none while nothing in the matrix is
/// enabled; a warning when the bus could not be listed (`None`); else the
/// matrix over the listed processes.
pub fn conflict_checks(enabled: &[String], busctl_out: Option<&str>) -> (r: Vec<CheckResult>)
    ensures
        enabled.len() == 0 ==> r.len() == 0,
        enabled.len() > 0 ==> match busctl_out {
            None => r.len() == 1 && r@[0].name@ == "conflicts"@ && (r@[0].status matches crate::check::Status::Warn(d)
                && d@ == "session bus scan skipped (busctl unavailable or no bus)"@),
            Some(out) => crate::check::checks_view(r@) == scan_enabled_spec(
                processes_spec(out@),
                crate::text::sviews(enabled@),
            ),
        },
{
    if enabled.len() == 0 {
        return Vec::new();
    }
    match busctl_out {
        Some(out) => {
            let ps = parse_processes(out);
            scan_enabled(ps.as_slice(), enabled)
        },
        None => {
            let mut v: Vec<CheckResult> = Vec::new();
            v.push(CheckResult::warn("conflicts", "session bus scan skipped (busctl unavailable or no bus)"));
            v
        },
    }
}

/// The rows doctor adds for shell.json. `config` is `None` when there is no
/// shell.json (nothing is enabled yet, so nothing to scan), `Some(None)`
/// when it does not parse (a warning, scan skipped), else the parsed file,
/// whose enabled components gate the conflict scan over the bus listing.
pub fn config_checks(config: Option<Option<&Json>>, busctl_out: Option<&str>) -> (r: Vec<CheckResult>)
    ensures
        match config {
            None => r.len() == 0,
            Some(None) => r.len() == 1 && r@[0].name@ == "shell.json"@ && (r@[0].status matches crate::check::Status::Warn(d)
                && d@ == "exists but is unparseable; conflict checks skipped"@),
            Some(Some(c)) => {
                let en = enabled_spec(c@);
                &&& en.len() == 0 ==> r.len() == 0
                &&& en.len() > 0 ==> match busctl_out {
                    None => r.len() == 1 && r@[0].name@ == "conflicts"@ && (r@[0].status matches crate::check::Status::Warn(d)
                        && d@ == "session bus scan skipped (busctl unavailable or no bus)"@),
                    Some(out) => crate::check::checks_view(r@) == scan_enabled_spec(processes_spec(out@), en),
                }
            },
        },
{
    match config {
        None => Vec::new(),
        Some(None) => {
            let mut v: Vec<CheckResult> = Vec::new();
            v.push(CheckResult::warn("shell.json", "exists but is unparseable; conflict checks skipped"));
            v
        },
        Some(Some(c)) => {
            let enabled = enabled_components(c);
            conflict_checks(enabled.as_slice(), busctl_out)
        },
    }
}

} // verus!

