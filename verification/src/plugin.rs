//! `opb plugin …`: a thin passthrough to upstream's `bin/omarchy plugin …`.
//! Routing decides what runs: the static help, the read-only list, or a
//! verbatim forward; spawning the helper happens at the edge.
use vstd::prelude::*;

use crate::text::{chars_of, eq_str, extend_str, starts_with, starts_with_str, string_of, sviews};

verus! {

/// Where a `plugin …` argument vector goes.
#[derive(Debug, PartialEq, Eq)]
pub enum Route {
    Help,
    ListXray,
    Forward(Vec<String>),
}

/// A route, with the forwarded arguments as plain values.
pub enum RouteV {
    Help,
    ListXray,
    Forward(Seq<Seq<char>>),
}

pub open spec fn route_view(r: Route) -> RouteV {
    match r {
        Route::Help => RouteV::Help,
        Route::ListXray => RouteV::ListXray,
        Route::Forward(v) => RouteV::Forward(sviews(v@)),
    }
}

/// No arguments, or just `-h`, `--help` or `help`.
pub open spec fn is_help(args: Seq<Seq<char>>) -> bool {
    args.len() == 0 || (args.len() == 1 && (args[0] == "-h"@ || args[0] == "--help"@ || args[0] == "help"@))
}

/// `--upstream` anywhere wins: the flag is consumed and the rest forwarded
/// verbatim; a bare `list` goes to the read-only list; anything else forwards.
pub open spec fn route_spec(args: Seq<Seq<char>>) -> RouteV {
    let stripped = args.filter(|a: Seq<char>| a != "--upstream"@);
    if is_help(args) {
        RouteV::Help
    } else if stripped.len() != args.len() {
        RouteV::Forward(stripped)
    } else if stripped.len() == 1 && stripped[0] == "list"@ {
        RouteV::ListXray
    } else {
        RouteV::Forward(stripped)
    }
}

pub fn route(args: &[String]) -> (r: Route)
    ensures
        route_view(r) == route_spec(sviews(args@)),
{
    let ghost av = sviews(args@);
    if args.len() == 0 || (args.len() == 1 && (eq_str(chars_of(args[0].as_str()).as_slice(), "-h")
        || eq_str(chars_of(args[0].as_str()).as_slice(), "--help") || eq_str(
        chars_of(args[0].as_str()).as_slice(),
        "help",
    ))) {
        return Route::Help;
    }
    assert(!is_help(av));
    let mut stripped: Vec<String> = Vec::new();
    let mut i: usize = 0;
    proof {
        reveal(Seq::filter);
    }
    assert(av.take(0).filter(|a: Seq<char>| a != "--upstream"@) =~= Seq::<Seq<char>>::empty());
    while i < args.len()
        invariant
            i <= args.len(),
            av == sviews(args@),
            sviews(stripped@) == av.take(i as int).filter(|a: Seq<char>| a != "--upstream"@),
        decreases args.len() - i,
    {
        proof {
            reveal(Seq::filter);
            assert(av.take(i + 1).drop_last() == av.take(i as int));
            assert(av.take(i + 1).last() == args@[i as int]@);
        }
        let ghost before = sviews(stripped@);
        if !eq_str(chars_of(args[i].as_str()).as_slice(), "--upstream") {
            stripped.push(args[i].clone());
        }
        assert(sviews(stripped@) =~= av.take(i + 1).filter(|a: Seq<char>| a != "--upstream"@));
        i += 1;
    }
    assert(av.take(args.len() as int) == av);
    if stripped.len() != args.len() {
        return Route::Forward(stripped);
    }
    if stripped.len() == 1 && eq_str(chars_of(stripped[0].as_str()).as_slice(), "list") {
        assert(sviews(stripped@)[0] == stripped@[0]@);
        return Route::ListXray;
    }
    proof {
        if stripped.len() == 1 {
            assert(sviews(stripped@)[0] == stripped@[0]@);
        }
    }
    Route::Forward(stripped)
}

/// `verb` followed by the arguments.
pub fn chain_verb(verb: &str, args: Vec<String>) -> (r: Vec<String>)
    ensures
        sviews(r@) == seq![verb@] + sviews(args@),
{
    let mut out: Vec<String> = Vec::new();
    out.push(verb.to_owned());
    let mut i: usize = 0;
    while i < args.len()
        invariant
            i <= args.len(),
            sviews(out@) == seq![verb@] + sviews(args@).take(i as int),
        decreases args.len() - i,
    {
        let ghost before = sviews(out@);
        out.push(args[i].clone());
        assert(sviews(out@) =~= before.push(args@[i as int]@));
        assert(sviews(args@).take(i + 1) =~= sviews(args@).take(i as int).push(args@[i as int]@));
        assert(sviews(out@) =~= seq![verb@] + sviews(args@).take(i + 1));
        i += 1;
    }
    assert(sviews(args@).take(args.len() as int) == sviews(args@));
    out
}

/// The static help of `opb plugin`.
pub const HELP: &'static str = "opb plugin — manage omarchy-shell plugins (thin wrapper over upstream)

Acquire:
  opb plugin add <git-url> [--enable] [--yes]  add a plugin from git
  opb plugin clone <source-id> [--edit]        clone a built-in plugin into your config
  opb plugin remove [id] [--yes]               remove an installed plugin
  opb plugin update [id] [--yes]               update git-managed plugins

Activate (requires a running shell — `opb up`; state persists via IPC):
  opb plugin enable <id> [placement]           placement: --section left|center|right,
                                               --index N, --before/--after <widget-id>
  opb plugin disable <id>

Inspect:
  opb plugin list                              installed plugins × enabled state × live conflicts
  opb plugin list --json                       machine-readable output (forwarded to upstream)
  opb plugin list --upstream                   raw upstream view over IPC (needs running shell)
  opb plugin validate <folder>                 validate a manifest folder

opb additions: enable prompts before activating a component that collides with a
running service; pass --yes to skip. Other flags forward untouched.
";

pub open spec fn any_help_flag(rest: Seq<Seq<char>>) -> bool {
    exists|i: int| 0 <= i < rest.len() && (#[trigger] rest[i] == "-h"@ || rest[i] == "--help"@)
}

pub open spec fn any_positional(rest: Seq<Seq<char>>) -> bool {
    exists|i: int| 0 <= i < rest.len() && !starts_with(#[trigger] rest[i], "-"@)
}

pub open spec fn any_yes(rest: Seq<Seq<char>>) -> bool {
    exists|i: int| 0 <= i < rest.len() && (#[trigger] rest[i] == "--yes"@ || rest[i] == "-y"@)
}

/// Why upstream's interactive `add` would die at a `gum` prompt, if it would:
/// gum missing, no help flag, and a URL or `--yes` missing (a missing URL
/// needs `gum input` even under `--yes`).
pub open spec fn gum_block_spec(fwd: Seq<Seq<char>>, gum_installed: bool) -> Option<Seq<char>> {
    if gum_installed || fwd.len() == 0 || fwd[0] != "add"@ {
        None
    } else {
        let rest = fwd.skip(1);
        let has_url = any_positional(rest);
        let has_yes = any_yes(rest);
        if any_help_flag(rest) || (has_url && has_yes) {
            None
        } else {
            let hint = if has_url {
                "pass --yes to skip its prompts"@
            } else if has_yes {
                "a git URL argument is required (--yes does not replace it)"@
            } else {
                "pass a git URL plus --yes to skip its prompts"@
            };
            Some(
                "upstream's add flow needs `gum` for its interactive prompts (not installed) — install it (`sudo pacman -S gum`) or "@
                    + hint,
            )
        }
    }
}

pub fn gum_block_reason(forward: &[String], gum_installed: bool) -> (r: Option<String>)
    ensures
        match r {
            Some(s) => gum_block_spec(sviews(forward@), gum_installed) == Some(s@),
            None => gum_block_spec(sviews(forward@), gum_installed) is None,
        },
{
    let ghost fv = sviews(forward@);
    if gum_installed || forward.len() == 0 || !eq_str(chars_of(forward[0].as_str()).as_slice(), "add") {
        proof {
            if forward.len() > 0 {
                assert(fv[0] == forward@[0]@);
            }
        }
        return None;
    }
    assert(fv[0] == forward@[0]@);
    let ghost rest = fv.skip(1);
    let mut help = false;
    let mut url = false;
    let mut yes = false;
    let mut i: usize = 1;
    while i < forward.len()
        invariant
            1 <= i <= forward.len(),
            fv == sviews(forward@),
            rest == fv.skip(1),
            help == exists|k: int| 0 <= k < i - 1 && (#[trigger] rest[k] == "-h"@ || rest[k] == "--help"@),
            url == exists|k: int| 0 <= k < i - 1 && !starts_with(#[trigger] rest[k], "-"@),
            yes == exists|k: int| 0 <= k < i - 1 && (#[trigger] rest[k] == "--yes"@ || rest[k] == "-y"@),
        decreases forward.len() - i,
    {
        let a = chars_of(forward[i].as_str());
        assert(rest[i - 1] == a@);
        if eq_str(a.as_slice(), "-h") || eq_str(a.as_slice(), "--help") {
            help = true;
        }
        if !starts_with_str(a.as_slice(), "-") {
            url = true;
        }
        if eq_str(a.as_slice(), "--yes") || eq_str(a.as_slice(), "-y") {
            yes = true;
        }
        i += 1;
    }
    assert(help == any_help_flag(rest));
    assert(url == any_positional(rest));
    assert(yes == any_yes(rest));
    if help || (url && yes) {
        return None;
    }
    let hint = if url {
        "pass --yes to skip its prompts"
    } else if yes {
        "a git URL argument is required (--yes does not replace it)"
    } else {
        "pass a git URL plus --yes to skip its prompts"
    };
    let mut v: Vec<char> = Vec::new();
    extend_str(
        &mut v,
        "upstream's add flow needs `gum` for its interactive prompts (not installed) — install it (`sudo pacman -S gum`) or ",
    );
    extend_str(&mut v, hint);
    Some(string_of(v.as_slice()))
}

} // verus!
