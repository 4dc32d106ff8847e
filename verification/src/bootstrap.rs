//! `opb bootstrap`: clone and pin upstream, then generate shell.json and the
//! session wiring. It never moves an existing pin (`opb update` does); a
//! re-run reports the pin, and `--redo` regenerates the generated artifacts
//! against it. Cloning, renaming and writing happen at the edge; which step
//! runs, and when a clone or pin is refused, is decided here.
use vstd::prelude::*;

use crate::paths::{join_exec, join_spec, upstream_spec, Paths};
use crate::pin::{short, short_spec};
use crate::text::{dec, dec_exec, extend_chars, extend_str, string_of};

verus! {

pub struct BootstrapOptions {
    /// Tag to pin; `None` = newest release tag on the remote.
    pub reference: Option<String>,
    /// Regenerate generated artifacts against the existing pin.
    pub redo: bool,
}

#[derive(Debug, Clone, PartialEq, Eq)]
pub enum BootstrapError {
    /// `--redo` with no pin to redo against.
    NothingToRedo,
    /// The pin (its commit given) has no `shell/plugins` tree.
    NotOmarchyCheckout(String),
    /// A fresh clone (its commit given) has no `shell/plugins` tree.
    CloneNotOmarchyCheckout(String),
    /// The cloned commit already has a pin dir.
    AlreadyPinned(String),
}

pub open spec fn unusable_text(commit: Seq<char>) -> Seq<char> {
    "pin "@ + commit + " has no shell/plugins dir — not an omarchy checkout; delete the pin and bootstrap again"@
}

pub open spec fn error_text(e: BootstrapError) -> Seq<char> {
    match e {
        BootstrapError::NothingToRedo => "not bootstrapped yet — nothing to redo; run `opb bootstrap` first"@,
        BootstrapError::NotOmarchyCheckout(c) => unusable_text(c@),
        BootstrapError::CloneNotOmarchyCheckout(c) => "clone is not an omarchy checkout: "@ + unusable_text(c@),
        BootstrapError::AlreadyPinned(c) => "commit "@ + c@ + " is already pinned; re-run without --ref"@,
    }
}

fn push_unusable(v: &mut Vec<char>, commit: &str)
    ensures
        final(v)@ == old(v)@ + unusable_text(commit@),
{
    extend_str(v, "pin ");
    extend_str(v, commit);
    extend_str(
        v,
        " has no shell/plugins dir — not an omarchy checkout; delete the pin and bootstrap again",
    );
}

impl BootstrapError {
    pub fn message(&self) -> (r: String)
        ensures
            r@ == error_text(*self),
    {
        let mut v: Vec<char> = Vec::new();
        match self {
            BootstrapError::NothingToRedo => {
                extend_str(&mut v, "not bootstrapped yet — nothing to redo; run `opb bootstrap` first");
            },
            BootstrapError::NotOmarchyCheckout(c) => {
                push_unusable(&mut v, c.as_str());
            },
            BootstrapError::CloneNotOmarchyCheckout(c) => {
                extend_str(&mut v, "clone is not an omarchy checkout: ");
                push_unusable(&mut v, c.as_str());
            },
            BootstrapError::AlreadyPinned(c) => {
                extend_str(&mut v, "commit ");
                extend_str(&mut v, c.as_str());
                extend_str(&mut v, " is already pinned; re-run without --ref");
            },
        }
        string_of(v.as_slice())
    }
}

/// What a bootstrap run does first.
#[derive(Debug, Clone, PartialEq, Eq)]
pub enum Step {
    /// Regenerate shell.json and the wiring against this pin (commit, dir).
    Redo { commit: String, pin_dir: String },
    /// Report the existing pin and change nothing.
    AlreadyBootstrapped { commit: String },
    /// No pin yet: clone one.
    Fresh,
}

/// The step for the active pin (commit and dir, as `pin::active_pin`
/// resolves it) and `--redo`: an existing pin is regenerated or reported,
/// never moved; `--redo` without a pin is refused.
pub fn plan(active: Option<(String, String)>, redo: bool) -> (r: Result<Step, BootstrapError>)
    ensures
        match active {
            Some(p) => if redo {
                r matches Ok(Step::Redo { commit, pin_dir }) && commit@ == p.0@ && pin_dir@ == p.1@
            } else {
                r matches Ok(Step::AlreadyBootstrapped { commit }) && commit@ == p.0@
            },
            None => if redo {
                r == Err::<Step, BootstrapError>(BootstrapError::NothingToRedo)
            } else {
                r == Ok::<Step, BootstrapError>(Step::Fresh)
            },
        },
{
    match active {
        Some((commit, pin_dir)) => if redo {
            Ok(Step::Redo { commit, pin_dir })
        } else {
            Ok(Step::AlreadyBootstrapped { commit })
        },
        None => if redo {
            Err(BootstrapError::NothingToRedo)
        } else {
            Ok(Step::Fresh)
        },
    }
}

/// A pin is usable only if it carries the shell plugin tree; anything else
/// means the ref resolved to a non-omarchy commit or the dir was mangled.
pub fn ensure_pin_usable(has_plugins: bool, commit: &str) -> (r: Result<(), BootstrapError>)
    ensures
        has_plugins ==> r is Ok,
        !has_plugins ==> (r matches Err(BootstrapError::NotOmarchyCheckout(c)) && c@ == commit@),
{
    if has_plugins {
        Ok(())
    } else {
        Err(BootstrapError::NotOmarchyCheckout(commit.to_owned()))
    }
}

/// A fresh clone becomes a pin only when its commit is not pinned yet and it
/// is an omarchy checkout (checked in that order), so a bad ref never
/// becomes the active pin.
pub fn validate_clone(commit: &str, pin_dir_exists: bool, has_plugins: bool) -> (r: Result<(), BootstrapError>)
    ensures
        pin_dir_exists ==> (r matches Err(BootstrapError::AlreadyPinned(c)) && c@ == commit@),
        !pin_dir_exists && !has_plugins ==> (r matches Err(BootstrapError::CloneNotOmarchyCheckout(c))
            && c@ == commit@),
        !pin_dir_exists && has_plugins ==> r is Ok,
{
    if pin_dir_exists {
        Err(BootstrapError::AlreadyPinned(commit.to_owned()))
    } else if !has_plugins {
        Err(BootstrapError::CloneNotOmarchyCheckout(commit.to_owned()))
    } else {
        Ok(())
    }
}

/// The temporary clone dir for process `pid`: `.clone-tmp<pid>` in the
/// upstream dir, renamed into the pin dir once validated.
pub fn clone_tmp_dir(paths: &Paths, pid: u32) -> (r: String)
    ensures
        r@ == join_spec(upstream_spec(paths@), ".clone-tmp"@ + dec(pid as nat)),
{
    let up = paths.upstream_dir();
    let mut v: Vec<char> = Vec::new();
    extend_str(&mut v, ".clone-tmp");
    let d = dec_exec(pid as u64);
    extend_chars(&mut v, d.as_slice());
    let name = string_of(v.as_slice());
    join_exec(up.as_str(), name.as_str())
}

pub open spec fn already_text(commit: Seq<char>) -> Seq<char> {
    "opb bootstrap: already bootstrapped ("@ + short_spec(commit) + " @ "@ + commit + ")\n"@
        + "  move the pin with `opb update` (Phase 4)\n"@
        + "  re-generate generated artifacts with `opb bootstrap --redo`\n"@
}

/// What a re-run without `--redo` prints.
pub fn already_message(commit: &str) -> (r: String)
    ensures
        r@ == already_text(commit@),
{
    let mut v: Vec<char> = Vec::new();
    extend_str(&mut v, "opb bootstrap: already bootstrapped (");
    let s = short(commit);
    extend_str(&mut v, s.as_str());
    extend_str(&mut v, " @ ");
    extend_str(&mut v, commit);
    extend_str(&mut v, ")\n");
    extend_str(&mut v, "  move the pin with `opb update` (Phase 4)\n");
    extend_str(&mut v, "  re-generate generated artifacts with `opb bootstrap --redo`\n");
    string_of(v.as_slice())
}

pub open spec fn regenerated_text(commit: Seq<char>, pin_dir: Seq<char>) -> Seq<char> {
    "opb bootstrap: regenerated shell.json + opb.conf against "@ + short_spec(commit) + " ("@ + pin_dir
        + ")\n"@
}

/// What `--redo` prints once done.
pub fn regenerated_message(commit: &str, pin_dir: &str) -> (r: String)
    ensures
        r@ == regenerated_text(commit@, pin_dir@),
{
    let mut v: Vec<char> = Vec::new();
    extend_str(&mut v, "opb bootstrap: regenerated shell.json + opb.conf against ");
    let s = short(commit);
    extend_str(&mut v, s.as_str());
    extend_str(&mut v, " (");
    extend_str(&mut v, pin_dir);
    extend_str(&mut v, ")\n");
    string_of(v.as_slice())
}

} // verus!
