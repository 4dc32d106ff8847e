//! `opb update` planning and reporting: the preview of what a pin move
//! would change, the rename arguments, the reconciliation report, the
//! rollback flip and the retention rule. Git, the filesystem and prompts run
//! at the edge.
use vstd::prelude::*;

use crate::pin::{lock_view, PinLock, PreviousPin};
use crate::shelljson::ReconcileReport;
use crate::text::{
    chars_of, extend_chars, extend_str, find_spec, lines, lines_exec, seq_eq, starts_with,
    starts_with_str, string_of, sviews, trim, trim_exec, upper, vviews,
};

verus! {

/// The paths a preview is scoped to: the only upstream surfaces opb uses.
pub const SCOPE: [&'static str; 2] = ["shell", "bin"];

/// What an update would change.
#[derive(Debug, PartialEq, Eq)]
pub struct UpdatePlan {
    /// Target ref as requested or resolved (e.g. `v4.1.0`).
    pub reference: String,
    /// Ref recorded in `upstream.lock` (the diff base).
    pub previous_reference: String,
    /// Commits touching the scoped paths (`sha subject` per entry).
    pub log: Vec<String>,
    /// Diffstat over the scoped paths (empty when identical).
    pub stat: String,
}

impl UpdatePlan {
    pub fn is_up_to_date(&self) -> (r: bool)
        ensures
            r == (self.reference@ == self.previous_reference@),
    {
        let a = chars_of(self.reference.as_str());
        let b = chars_of(self.previous_reference.as_str());
        seq_eq(a.as_slice(), b.as_slice())
    }
}

/// The plan when the lock already names the target: nothing to fetch.
pub fn up_to_date_plan(reference: &str) -> (r: UpdatePlan)
    ensures
        r.reference@ == reference@,
        r.previous_reference@ == reference@,
        r.log.len() == 0,
        r.stat@.len() == 0,
{
    UpdatePlan {
        reference: reference.to_owned(),
        previous_reference: reference.to_owned(),
        log: Vec::new(),
        stat: String::new(),
    }
}

/// Each entry on its own indented line.
pub open spec fn indented(ls: Seq<Seq<char>>) -> Seq<char>
    decreases ls.len(),
{
    if ls.len() == 0 {
        Seq::empty()
    } else {
        indented(ls.drop_last()) + "\n  "@ + ls.last()
    }
}

/// The preview shown before the confirm step.
pub open spec fn preview_spec(reference: Seq<char>, previous: Seq<char>, log: Seq<Seq<char>>, stat: Seq<char>) -> Seq<char> {
    let head = "opb update: "@ + previous + " -> "@ + reference;
    if reference == previous {
        head + "\n  already up to date\n"@
    } else {
        head + (if log.len() == 0 {
            "\n  no commits touch shell/ or bin/ (contract set unchanged)"@
        } else {
            "\ncommits touching shell/ or bin/:"@ + indented(log)
        }) + (if stat.len() > 0 {
            "\nfiles changed:"@ + indented(lines(stat))
        } else {
            Seq::empty()
        }) + "\n"@
    }
}

fn push_indented(out: &mut Vec<char>, ls: &Vec<Vec<char>>)
    ensures
        final(out)@ == old(out)@ + indented(vviews(ls@)),
{
    let mut i: usize = 0;
    let ghost o = out@;
    assert(vviews(ls@).take(0) =~= Seq::<Seq<char>>::empty());
    while i < ls.len()
        invariant
            i <= ls.len(),
            out@ == o + indented(vviews(ls@).take(i as int)),
        decreases ls.len() - i,
    {
        assert(vviews(ls@).take(i + 1).drop_last() == vviews(ls@).take(i as int));
        assert(vviews(ls@).take(i + 1).last() == ls@[i as int]@);
        extend_str(out, "\n  ");
        extend_chars(out, ls[i].as_slice());
        i += 1;
    }
    assert(vviews(ls@).take(ls.len() as int) == vviews(ls@));
}

/// Human-readable preview for the confirm step of `opb update`.
pub fn render_preview(plan: &UpdatePlan) -> (r: String)
    ensures
        r@ == preview_spec(plan.reference@, plan.previous_reference@, sviews(plan.log@), plan.stat@),
{
    let mut out: Vec<char> = Vec::new();
    extend_str(&mut out, "opb update: ");
    extend_str(&mut out, plan.previous_reference.as_str());
    extend_str(&mut out, " -> ");
    extend_str(&mut out, plan.reference.as_str());
    if plan.is_up_to_date() {
        extend_str(&mut out, "\n  already up to date\n");
        return string_of(out.as_slice());
    }
    let ghost head = out@;
    if plan.log.len() == 0 {
        extend_str(&mut out, "\n  no commits touch shell/ or bin/ (contract set unchanged)");
    } else {
        extend_str(&mut out, "\ncommits touching shell/ or bin/:");
        let mut logv: Vec<Vec<char>> = Vec::new();
        let mut i: usize = 0;
        while i < plan.log.len()
            invariant
                i <= plan.log.len(),
                vviews(logv@) == sviews(plan.log@).take(i as int),
            decreases plan.log.len() - i,
        {
            let ghost b = vviews(logv@);
            logv.push(chars_of(plan.log[i].as_str()));
            assert(vviews(logv@) =~= b.push(plan.log@[i as int]@));
            assert(sviews(plan.log@).take(i + 1) =~= sviews(plan.log@).take(i as int).push(plan.log@[i as int]@));
            i += 1;
        }
        assert(sviews(plan.log@).take(plan.log.len() as int) == sviews(plan.log@));
        push_indented(&mut out, &logv);
    }
    let ghost mid = out@;
    let sc = chars_of(plan.stat.as_str());
    if sc.len() > 0 {
        extend_str(&mut out, "\nfiles changed:");
        let ls = lines_exec(sc.as_slice());
        push_indented(&mut out, &ls);
    }
    extend_str(&mut out, "\n");
    assert(out@ =~= preview_spec(plan.reference@, plan.previous_reference@, sviews(plan.log@), plan.stat@));
    string_of(out.as_slice())
}

/// `opb update` options.
#[derive(Debug, Clone)]
pub struct UpdateOptions {
    /// Target ref; none means the newest stable tag.
    pub reference: Option<String>,
    /// Explicit id renames applied during reconciliation (`--rename old=new`).
    pub renames: Vec<(String, String)>,
    /// Skip the interactive confirm.
    pub yes: bool,
}

impl Default for UpdateOptions {
    fn default() -> (r: Self)
        ensures
            r.reference is None,
            r.renames.len() == 0,
            !r.yes,
    {
        UpdateOptions { reference: None, renames: Vec::new(), yes: false }
    }
}

/// `opb update rollback` options.
#[derive(Debug, Clone)]
pub struct RollbackOptions {
    /// Explicit id renames applied during reconciliation.
    pub renames: Vec<(String, String)>,
    /// Skip the interactive confirm.
    pub yes: bool,
}

impl Default for RollbackOptions {
    fn default() -> (r: Self)
        ensures
            r.renames.len() == 0,
            !r.yes,
    {
        RollbackOptions { renames: Vec::new(), yes: false }
    }
}

/// Why an update step is refused.
#[derive(Debug, Clone, PartialEq, Eq)]
pub enum UpdateError {
    /// `--rename` without `=`.
    RenameWithoutSeparator,
    /// `--rename` with an empty side (the argument).
    RenameEmptySide(String),
    /// No lock: nothing is pinned.
    NotBootstrapped,
    /// The lock records no previous generation.
    NoPrevious,
    /// The previous generation's dir is gone (its abbreviated commit).
    PreviousGone(String),
    /// The dependency checks failed.
    DependencyChecksFailed,
    /// The user declined.
    Aborted,
    /// No answer could be read.
    NoConfirmation,
}

impl UpdateError {
    pub fn message(&self) -> (r: String)
        ensures
            r@ == match self {
                UpdateError::RenameWithoutSeparator => "--rename expects OLD=NEW (e.g. --rename omarchy.model-usage=omarchy.agents)"@,
                UpdateError::RenameEmptySide(a) => "--rename sides must be non-empty: "@ + a@,
                UpdateError::NotBootstrapped => "not bootstrapped — run `opb bootstrap` first"@,
                UpdateError::NoPrevious => "no previous generation to roll back to — rollback exists only right after an update"@,
                UpdateError::PreviousGone(c) => "previous generation dir for "@ + c@ + " is gone — cannot roll back"@,
                UpdateError::DependencyChecksFailed => "dependency checks failed — resolve them before updating"@,
                UpdateError::Aborted => "aborted by user"@,
                UpdateError::NoConfirmation => "aborted (no confirmation)"@,
            },
    {
        match self {
            UpdateError::RenameWithoutSeparator => "--rename expects OLD=NEW (e.g. --rename omarchy.model-usage=omarchy.agents)".to_owned(),
            UpdateError::RenameEmptySide(a) => {
                let mut v: Vec<char> = Vec::new();
                extend_str(&mut v, "--rename sides must be non-empty: ");
                extend_str(&mut v, a.as_str());
                string_of(v.as_slice())
            },
            UpdateError::NotBootstrapped => "not bootstrapped — run `opb bootstrap` first".to_owned(),
            UpdateError::NoPrevious => "no previous generation to roll back to — rollback exists only right after an update".to_owned(),
            UpdateError::PreviousGone(c) => {
                let mut v: Vec<char> = Vec::new();
                extend_str(&mut v, "previous generation dir for ");
                extend_str(&mut v, c.as_str());
                extend_str(&mut v, " is gone — cannot roll back");
                string_of(v.as_slice())
            },
            UpdateError::DependencyChecksFailed => "dependency checks failed — resolve them before updating".to_owned(),
            UpdateError::Aborted => "aborted by user".to_owned(),
            UpdateError::NoConfirmation => "aborted (no confirmation)".to_owned(),
        }
    }
}

/// `--rename old=new`: split at the first `=`, both sides non-empty.
pub open spec fn rename_spec(arg: Seq<char>) -> Option<(Seq<char>, Seq<char>)> {
    match find_spec(arg, "="@) {
        Some(i) => Some((arg.take(i), arg.skip(i + 1))),
        None => None,
    }
}

/// Parse one `--rename old=new` argument.
pub fn parse_rename(arg: &str) -> (r: Result<(String, String), UpdateError>)
    ensures
        match rename_spec(arg@) {
            None => r == Err::<(String, String), UpdateError>(UpdateError::RenameWithoutSeparator),
            Some(p) => if p.0.len() == 0 || p.1.len() == 0 {
                r matches Err(UpdateError::RenameEmptySide(a)) && a@ == arg@
            } else {
                r matches Ok(q) && q.0@ == p.0 && q.1@ == p.1
            },
        },
{
    let c = chars_of(arg);
    let i = match crate::text::find_str(c.as_slice(), "=") {
        Some(i) => i,
        None => {
            return Err(UpdateError::RenameWithoutSeparator);
        },
    };
    proof {
        reveal_strlit("=");
    }
    let from = crate::text::slice_vec(c.as_slice(), 0, i);
    let to = crate::text::slice_vec(c.as_slice(), i + 1, c.len());
    assert(from@ == c@.take(i as int));
    assert(to@ == c@.skip(i + 1));
    if from.len() == 0 || to.len() == 0 {
        return Err(UpdateError::RenameEmptySide(arg.to_owned()));
    }
    Ok((string_of(from.as_slice()), string_of(to.as_slice())))
}

/// The exit code at and above which a report fails.
pub fn exit_fail() -> (r: u8)
    ensures
        r == crate::exit::FAIL,
{
    crate::exit::FAIL
}

/// Is a confirmation answer a yes (`y` or `yes`, any case, surrounding
/// whitespace ignored)?
pub open spec fn is_yes(line: Seq<char>) -> bool {
    let a = upper(trim(line));
    a == "Y"@ || a == "YES"@
}

pub fn confirm_answer(line: &str) -> (r: bool)
    ensures
        r == is_yes(line@),
{
    let c = chars_of(line);
    let t = trim_exec(c.as_slice());
    let u = crate::text::upper_exec(t.as_slice());
    crate::text::eq_str(u.as_slice(), "Y") || crate::text::eq_str(u.as_slice(), "YES")
}

/// Ids joined with `, `.
pub open spec fn comma_list(ids: Seq<Seq<char>>) -> Seq<char>
    decreases ids.len(),
{
    if ids.len() == 0 {
        Seq::empty()
    } else if ids.len() == 1 {
        ids[0]
    } else {
        comma_list(ids.drop_last()) + ", "@ + ids.last()
    }
}

pub open spec fn renamed_lines(rs: Seq<(Seq<char>, Seq<char>)>) -> Seq<char>
    decreases rs.len(),
{
    if rs.len() == 0 {
        Seq::empty()
    } else {
        renamed_lines(rs.drop_last()) + "  renamed: "@ + rs.last().0 + " -> "@ + rs.last().1 + "\n"@
    }
}

pub open spec fn pruned_lines(ps: Seq<Seq<char>>) -> Seq<char>
    decreases ps.len(),
{
    if ps.len() == 0 {
        Seq::empty()
    } else {
        pruned_lines(ps.drop_last()) + "  pruned (no longer shipped): "@ + ps.last() + "\n"@
    }
}

/// The reconciliation report: renames, pruned ids, and the ids that
/// appeared with the posture they got.
pub open spec fn report_spec(r: (Seq<(Seq<char>, Seq<char>)>, Seq<Seq<char>>, Seq<Seq<char>>, bool)) -> Seq<char> {
    "opb update: shell.json reconciled\n"@ + renamed_lines(r.0) + pruned_lines(r.1) + if r.2.len() > 0 {
        "  new components ("@ + (if r.3 {
            "kept off (all-off selection preserved)"@
        } else {
            "enabled by upstream default"@
        }) + "): "@ + comma_list(r.2) + "\n"@
    } else {
        Seq::empty()
    }
}

pub fn render_report(report: &ReconcileReport) -> (r: String)
    ensures
        r@ == report_spec(report@),
{
    let mut s: Vec<char> = Vec::new();
    extend_str(&mut s, "opb update: shell.json reconciled\n");
    let ghost head = s@;
    let mut i: usize = 0;
    let ghost rv = report@.0;
    assert(rv.take(0) =~= Seq::<(Seq<char>, Seq<char>)>::empty());
    while i < report.renamed.len()
        invariant
            i <= report.renamed.len(),
            rv == report@.0,
            rv.len() == report.renamed.len(),
            s@ == head + renamed_lines(rv.take(i as int)),
        decreases report.renamed.len() - i,
    {
        assert(rv.take(i + 1).drop_last() == rv.take(i as int));
        assert(rv.take(i + 1).last() == (report.renamed@[i as int].0@, report.renamed@[i as int].1@));
        extend_str(&mut s, "  renamed: ");
        extend_str(&mut s, report.renamed[i].0.as_str());
        extend_str(&mut s, " -> ");
        extend_str(&mut s, report.renamed[i].1.as_str());
        extend_str(&mut s, "\n");
        i += 1;
    }
    assert(rv.take(report.renamed.len() as int) == rv);
    let ghost mid = s@;
    let ghost pv = report@.1;
    let mut j: usize = 0;
    assert(pv.take(0) =~= Seq::<Seq<char>>::empty());
    while j < report.pruned.len()
        invariant
            j <= report.pruned.len(),
            pv == report@.1,
            pv.len() == report.pruned.len(),
            s@ == mid + pruned_lines(pv.take(j as int)),
        decreases report.pruned.len() - j,
    {
        assert(pv.take(j + 1).drop_last() == pv.take(j as int));
        assert(pv.take(j + 1).last() == report.pruned@[j as int]@);
        extend_str(&mut s, "  pruned (no longer shipped): ");
        extend_str(&mut s, report.pruned[j].as_str());
        extend_str(&mut s, "\n");
        j += 1;
    }
    assert(pv.take(report.pruned.len() as int) == pv);
    let ghost mid2 = s@;
    if report.appeared.len() > 0 {
        extend_str(&mut s, "  new components (");
        if report.appeared_kept_off {
            extend_str(&mut s, "kept off (all-off selection preserved)");
        } else {
            extend_str(&mut s, "enabled by upstream default");
        }
        extend_str(&mut s, "): ");
        let ghost av = report@.2;
        let mut k: usize = 0;
        let ghost pre = s@;
        while k < report.appeared.len()
            invariant
                k <= report.appeared.len(),
                av == report@.2,
                av.len() == report.appeared.len(),
                k > 0 ==> s@ == pre + comma_list(av.take(k as int)),
                k == 0 ==> s@ == pre,
            decreases report.appeared.len() - k,
        {
            assert(av.take(k + 1).drop_last() == av.take(k as int));
            assert(av.take(k + 1).last() == report.appeared@[k as int]@);
            if k > 0 {
                extend_str(&mut s, ", ");
            }
            extend_str(&mut s, report.appeared[k].as_str());
            k += 1;
        }
        assert(av.take(report.appeared.len() as int) == av);
        extend_str(&mut s, "\n");
    }
    assert(s@ =~= report_spec(report@));
    string_of(s.as_slice())
}

/// The lock after rolling back: the previous generation becomes active and
/// the generation left becomes the new previous (so a second rollback undoes
/// the first).
pub open spec fn rollback_spec(l: (Seq<char>, Seq<char>, Seq<char>, Option<(Seq<char>, Seq<char>)>)) -> Option<
    (Seq<char>, Seq<char>, Seq<char>, Option<(Seq<char>, Seq<char>)>),
> {
    match l.3 {
        Some(p) => Some(("stable"@, p.0, p.1, Some((l.1, l.2)))),
        None => None,
    }
}

/// The lock a rollback writes, or why there is nothing to roll back to.
pub fn rolled_back(lock: &PinLock) -> (r: Result<PinLock, UpdateError>)
    ensures
        match rollback_spec(lock_view(*lock)) {
            Some(v) => r matches Ok(n) && lock_view(n) == v,
            None => r == Err::<PinLock, UpdateError>(UpdateError::NoPrevious),
        },
{
    match &lock.previous {
        Some(p) => Ok(PinLock::stable(p.reference.as_str(), p.commit.as_str()).with_previous(lock)),
        None => Err(UpdateError::NoPrevious),
    }
}

/// Retention: keep the active pin and its recorded previous; any other
/// `omarchy@<commit>` dir goes. Other names (scratch dirs) are left alone.
pub open spec fn prune_spec(l: (Seq<char>, Seq<char>, Seq<char>, Option<(Seq<char>, Seq<char>)>), name: Seq<char>) -> Option<Seq<char>> {
    if !starts_with(name, crate::paths::PIN_DIRNAME_PREFIX@) {
        None
    } else {
        let commit = name.skip(crate::paths::PIN_DIRNAME_PREFIX@.len() as int);
        if commit == l.2 || (l.3 matches Some(p) && commit == p.1) {
            None
        } else {
            Some(commit)
        }
    }
}

/// The commit of a generation dir that retention removes, if it does.
pub fn prunable(lock: &PinLock, name: &str) -> (r: Option<String>)
    ensures
        match r {
            Some(c) => prune_spec(lock_view(*lock), name@) == Some(c@),
            None => prune_spec(lock_view(*lock), name@) is None,
        },
{
    let nc = chars_of(name);
    if !starts_with_str(nc.as_slice(), crate::paths::PIN_DIRNAME_PREFIX) {
        return None;
    }
    let p = chars_of(crate::paths::PIN_DIRNAME_PREFIX);
    let commit = crate::text::slice_vec(nc.as_slice(), p.len(), nc.len());
    assert(commit@ =~= nc@.skip(crate::paths::PIN_DIRNAME_PREFIX@.len() as int));
    let cur = chars_of(lock.commit.as_str());
    if seq_eq(commit.as_slice(), cur.as_slice()) {
        return None;
    }
    match &lock.previous {
        Some(prev) => {
            let pc = chars_of(prev.commit.as_str());
            if seq_eq(commit.as_slice(), pc.as_slice()) {
                return None;
            }
        },
        None => {},
    }
    Some(string_of(commit.as_slice()))
}

/// Whether to proceed: `--yes` skips the question; otherwise the answer
/// line read (`None`: nothing could be read) must be a yes.
pub fn confirmation(yes: bool, answer: Option<&str>) -> (r: Result<(), UpdateError>)
    ensures
        yes ==> r is Ok,
        !yes ==> match answer {
            None => r == Err::<(), UpdateError>(UpdateError::NoConfirmation),
            Some(a) => if is_yes(a@) {
                r is Ok
            } else {
                r == Err::<(), UpdateError>(UpdateError::Aborted)
            },
        },
{
    if yes {
        return Ok(());
    }
    match answer {
        None => Err(UpdateError::NoConfirmation),
        Some(a) => if confirm_answer(a) {
            Ok(())
        } else {
            Err(UpdateError::Aborted)
        },
    }
}

/// The dependency gate before the pin moves: a failing report stops the
/// update.
pub fn dependency_gate(exit_code: u8) -> (r: Result<(), UpdateError>)
    ensures
        exit_code >= crate::exit::FAIL ==> r == Err::<(), UpdateError>(UpdateError::DependencyChecksFailed),
        exit_code < crate::exit::FAIL ==> r is Ok,
{
    if exit_code >= exit_fail() {
        Err(UpdateError::DependencyChecksFailed)
    } else {
        Ok(())
    }
}

/// The range the preview's log and diffstat cover in the scratch repo.
pub const RANGE: &'static str = "refs/opb/from..refs/opb/to";

/// The refspecs that fetch the current and target refs into the scratch
/// repo's own namespace (a bare-name fetch would leave nothing to diff).
pub fn fetch_refspecs(from: &str, to: &str) -> (r: (String, String))
    ensures
        r.0@ == "+"@ + from@ + ":refs/opb/from"@,
        r.1@ == "+"@ + to@ + ":refs/opb/to"@,
{
    let mut a: Vec<char> = Vec::new();
    extend_str(&mut a, "+");
    extend_str(&mut a, from);
    extend_str(&mut a, ":refs/opb/from");
    let mut b: Vec<char> = Vec::new();
    extend_str(&mut b, "+");
    extend_str(&mut b, to);
    extend_str(&mut b, ":refs/opb/to");
    (string_of(a.as_slice()), string_of(b.as_slice()))
}

/// The line a rollback announces before asking: from the active generation
/// to the previous one.
pub fn rollback_header(lock: &PinLock, prev: &PreviousPin) -> (r: String)
    ensures
        r@ == "opb update rollback: "@ + crate::pin::short_spec(lock.commit@) + " ("@ + lock.reference@ + ") -> "@
            + crate::pin::short_spec(prev.commit@) + " ("@ + prev.reference@ + ")"@,
{
    let mut v: Vec<char> = Vec::new();
    extend_str(&mut v, "opb update rollback: ");
    let a = crate::pin::short(lock.commit.as_str());
    extend_str(&mut v, a.as_str());
    extend_str(&mut v, " (");
    extend_str(&mut v, lock.reference.as_str());
    extend_str(&mut v, ") -> ");
    let b = crate::pin::short(prev.commit.as_str());
    extend_str(&mut v, b.as_str());
    extend_str(&mut v, " (");
    extend_str(&mut v, prev.reference.as_str());
    extend_str(&mut v, ")");
    string_of(v.as_slice())
}

/// A rollback is its own inverse: rolling back twice from a stable lock
/// with a previous generation restores that lock exactly.
pub proof fn law_rollback_twice_restores(l: (Seq<char>, Seq<char>, Seq<char>, Option<(Seq<char>, Seq<char>)>))
    requires
        l.0 == "stable"@,
        l.3 is Some,
    ensures
        rollback_spec(l) is Some,
        rollback_spec(rollback_spec(l)->0) == Some(l),
{
}

/// Where a rollback goes, given whether the previous generation's dir is
/// still on disk: the lock to write, or why there is no rolling back.
pub fn rollback_plan(lock: &PinLock, prev_dir_exists: bool) -> (r: Result<PinLock, UpdateError>)
    ensures
        match lock.previous {
            None => r == Err::<PinLock, UpdateError>(UpdateError::NoPrevious),
            Some(p) => if prev_dir_exists {
                r matches Ok(n) && Some(lock_view(n)) == rollback_spec(lock_view(*lock))
            } else {
                r matches Err(UpdateError::PreviousGone(c)) && c@ == crate::pin::short_spec(p.commit@)
            },
        },
{
    match &lock.previous {
        None => Err(UpdateError::NoPrevious),
        Some(p) => if prev_dir_exists {
            rolled_back(lock)
        } else {
            Err(UpdateError::PreviousGone(crate::pin::short(p.commit.as_str())))
        },
    }
}

/// The start of an update plan: refused without a lock; already settled
/// (`Some`, nothing to diff) when the target is the pinned reference;
/// `None` when the two refs must be compared.
pub fn settled_plan(lock: Option<&PinLock>, reference: &str) -> (r: Result<Option<UpdatePlan>, UpdateError>)
    ensures
        match lock {
            None => r == Err::<Option<UpdatePlan>, UpdateError>(UpdateError::NotBootstrapped),
            Some(l) => if l.reference@ == reference@ {
                r matches Ok(Some(p)) && p.reference@ == reference@ && p.previous_reference@ == reference@
                    && p.log.len() == 0 && p.stat@.len() == 0
            } else {
                r matches Ok(None)
            },
        },
{
    match lock {
        None => Err(UpdateError::NotBootstrapped),
        Some(l) => {
            let a = chars_of(l.reference.as_str());
            let b = chars_of(reference);
            if seq_eq(a.as_slice(), b.as_slice()) {
                Ok(Some(up_to_date_plan(reference)))
            } else {
                Ok(None)
            }
        },
    }
}

/// Retention keeps exactly two generations: the pin dirs of the active
/// commit and of the recorded previous one stay; every other `omarchy@`
/// dir is pruned.
pub proof fn law_retention_keeps_active_and_previous(
    l: (Seq<char>, Seq<char>, Seq<char>, Option<(Seq<char>, Seq<char>)>),
    commit: Seq<char>,
)
    ensures
        prune_spec(l, crate::paths::PIN_DIRNAME_PREFIX@ + commit) == (if commit == l.2 || (l.3 matches Some(p)
            && commit == p.1) {
            None
        } else {
            Some(commit)
        }),
{
    let pre = crate::paths::PIN_DIRNAME_PREFIX@;
    let name = pre + commit;
    assert(name.subrange(0, pre.len() as int) =~= pre);
    assert(name.skip(pre.len() as int) =~= commit);
}


/// A rollback undoes a pin update: after the update writes the new pin with
/// the old one recorded as previous, rolling back makes the old reference
/// and commit active again (and remembers the new pin as previous).
pub proof fn law_rollback_undoes_update(
    l: (Seq<char>, Seq<char>, Seq<char>, Option<(Seq<char>, Seq<char>)>),
    reference: Seq<char>,
    commit: Seq<char>,
)
    ensures
        rollback_spec((crate::pin::CHANNEL_STABLE@, reference, commit, Some((l.1, l.2)))) == Some(
            ("stable"@, l.1, l.2, Some((reference, commit))),
        ),
{
}


/// A confirmation answer is a yes exactly when, with surrounding whitespace
/// dropped and letters folded to upper case, it reads `y` or `yes`: so `y`,
/// `Y`, `yes`, `Yes` and `YES` are a yes however they are padded, and `n`,
/// `no` or an empty (whitespace-only) answer are not.
pub proof fn law_confirm_answer_yes(pre: Seq<char>, post: Seq<char>)
    requires
        forall|j: int| 0 <= j < pre.len() ==> crate::text::is_ws(#[trigger] pre[j]),
        forall|j: int| 0 <= j < post.len() ==> crate::text::is_ws(#[trigger] post[j]),
    ensures
        is_yes(pre + "y"@ + post),
        is_yes(pre + "Y"@ + post),
        is_yes(pre + "yes"@ + post),
        is_yes(pre + "Yes"@ + post),
        is_yes(pre + "YES"@ + post),
        !is_yes(pre + "n"@ + post),
        !is_yes(pre + "no"@ + post),
        !is_yes(pre + post),
{
    reveal_strlit("y");
    reveal_strlit("Y");
    reveal_strlit("yes");
    reveal_strlit("Yes");
    reveal_strlit("YES");
    reveal_strlit("n");
    reveal_strlit("no");
    crate::text::lemma_trim_padded(pre, "y"@, post);
    crate::text::lemma_trim_padded(pre, "Y"@, post);
    crate::text::lemma_trim_padded(pre, "yes"@, post);
    crate::text::lemma_trim_padded(pre, "Yes"@, post);
    crate::text::lemma_trim_padded(pre, "YES"@, post);
    crate::text::lemma_trim_padded(pre, "n"@, post);
    crate::text::lemma_trim_padded(pre, "no"@, post);
    crate::text::lemma_trim_padded(pre, Seq::<char>::empty(), post);
    assert(pre + Seq::<char>::empty() + post =~= pre + post);
    assert(upper("y"@) =~= "Y"@);
    assert(upper("Y"@) =~= "Y"@);
    assert(upper("yes"@) =~= "YES"@);
    assert(upper("Yes"@) =~= "YES"@);
    assert(upper("YES"@) =~= "YES"@);
    assert(upper("n"@) =~= seq!['N']);
    assert(seq!['N'][0] != "Y"@[0]);
    assert(upper("no"@) =~= seq!['N', 'O']);
    assert(upper(Seq::<char>::empty()) =~= Seq::<char>::empty());
}

} // verus!


