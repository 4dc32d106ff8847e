//! Session-bus conflict scan. Detection is process ownership on the session
//! bus, never binary presence: an installed but idle binary registers no
//! connection and collides with nothing.
use vstd::prelude::*;

use crate::check::{check_view, checks_view, CheckResult};
use crate::shelljson::contains_string;
use crate::text::{
    chars_of, dedupe_seq, dedupe_strings, eq_str, extend_chars, extend_str, lines, lines_exec,
    starts_with, starts_with_str, string_of, sviews, vviews, ws_tokens, ws_tokens_exec,
};

verus! {

/// The PROCESS column of one `busctl --user list` row (the header row and
/// rows with fewer than three columns have none).
pub open spec fn process_of(line: Seq<char>) -> Option<Seq<char>> {
    let f = ws_tokens(line);
    if f.len() == 0 || f[0] == "NAME"@ || f.len() < 3 {
        None
    } else {
        Some(f[2])
    }
}

pub open spec fn process_column(ls: Seq<Seq<char>>) -> Seq<Seq<char>>
    decreases ls.len(),
{
    if ls.len() == 0 {
        Seq::empty()
    } else {
        let r = process_column(ls.drop_last());
        match process_of(ls.last()) {
            Some(p) => r.push(p),
            None => r,
        }
    }
}

/// The distinct process names of a `busctl` listing, in first-seen order.
pub open spec fn processes_spec(out: Seq<char>) -> Seq<Seq<char>> {
    dedupe_seq(process_column(lines(out)))
}

/// Extracts the PROCESS column from `busctl --user list --no-pager` output.
pub fn parse_processes(busctl_out: &str) -> (r: Vec<String>)
    ensures
        sviews(r@) == processes_spec(busctl_out@),
{
    let s = chars_of(busctl_out);
    let ls = lines_exec(s.as_slice());
    let mut col: Vec<Vec<char>> = Vec::new();
    let mut i: usize = 0;
    assert(vviews(ls@).take(0) =~= Seq::<Seq<char>>::empty());
    while i < ls.len()
        invariant
            i <= ls.len(),
            vviews(ls@) == lines(busctl_out@),
            vviews(col@) == process_column(vviews(ls@).take(i as int)),
        decreases ls.len() - i,
    {
        let ghost pre = vviews(ls@).take(i as int);
        assert(vviews(ls@).take(i + 1).drop_last() == pre);
        assert(vviews(ls@).take(i + 1).last() == ls@[i as int]@);
        let f = ws_tokens_exec(ls[i].as_slice());
        if f.len() >= 3 && !eq_str(f[0].as_slice(), "NAME") {
            let ghost before = vviews(col@);
            let p = crate::text::slice_vec(f[2].as_slice(), 0, f[2].len());
            assert(p@ =~= vviews(f@)[2]);
            col.push(p);
            assert(vviews(col@) =~= before.push(vviews(f@)[2]));
        }
        i += 1;
    }
    assert(vviews(ls@).take(ls.len() as int) == vviews(ls@));
    let d = dedupe_strings(col);
    let mut out: Vec<String> = Vec::new();
    let mut j: usize = 0;
    while j < d.len()
        invariant
            j <= d.len(),
            sviews(out@) == vviews(d@).take(j as int),
        decreases d.len() - j,
    {
        let ghost before = sviews(out@);
        out.push(string_of(d[j].as_slice()));
        assert(sviews(out@) =~= before.push(vviews(d@)[j as int]));
        assert(vviews(d@).take(j + 1) =~= vviews(d@).take(j as int).push(vviews(d@)[j as int]));
        j += 1;
    }
    assert(vviews(d@).take(d.len() as int) == vviews(d@));
    out
}

/// Daemons that would own the notifications bus name.
pub open spec fn is_notification_daemon(p: Seq<char>) -> bool {
    p == "mako"@ || p == "dunst"@ || p == "swaync"@ || p == "fnott"@
}

/// Polkit agents, matched by prefix: busctl truncates the PROCESS column to
/// 15 characters (`polkit-gnome-au`).
pub open spec fn is_polkit_agent(p: Seq<char>) -> bool {
    starts_with(p, "hyprpolkitagent"@) || starts_with(p, "polkit-gnome"@) || starts_with(
        p,
        "polkit-kde"@,
    )
}

/// Other bars: coexistence is fine, the layout starts empty.
pub open spec fn is_other_bar(p: Seq<char>) -> bool {
    p == "waybar"@ || p == "eww"@
}

/// The rows one process yields, for the matrix components switched on.
pub open spec fn rows_for(p: Seq<char>, notif: bool, polkit: bool, bar: bool) -> Seq<
    (Seq<char>, Seq<char>, Option<Seq<char>>),
> {
    (if notif && is_notification_daemon(p) {
        seq![("omarchy.notifications"@, "WARN"@, Some(p + " owns the notifications bus name"@))]
    } else {
        Seq::empty()
    }) + (if polkit && is_polkit_agent(p) {
        seq![("omarchy.polkit"@, "WARN"@, Some(p + " is a polkit auth agent"@))]
    } else {
        Seq::empty()
    }) + (if bar && is_other_bar(p) {
        seq![("bar"@, "INFO"@, Some(p + " runs alongside; coexistence fine (empty layout)"@))]
    } else {
        Seq::empty()
    })
}

pub open spec fn scan_rows(ps: Seq<Seq<char>>, notif: bool, polkit: bool, bar: bool) -> Seq<
    (Seq<char>, Seq<char>, Option<Seq<char>>),
>
    decreases ps.len(),
{
    if ps.len() == 0 {
        Seq::empty()
    } else {
        scan_rows(ps.drop_last(), notif, polkit, bar) + rows_for(ps.last(), notif, polkit, bar)
    }
}

/// The whole matrix.
pub open spec fn scan_spec(ps: Seq<Seq<char>>) -> Seq<(Seq<char>, Seq<char>, Option<Seq<char>>)> {
    scan_rows(ps, true, true, true)
}

/// The matrix gated on the enabled components.
pub open spec fn scan_enabled_spec(ps: Seq<Seq<char>>, enabled: Seq<Seq<char>>) -> Seq<
    (Seq<char>, Seq<char>, Option<Seq<char>>),
> {
    scan_rows(
        ps,
        enabled.contains("omarchy.notifications"@),
        enabled.contains("omarchy.polkit"@),
        enabled.contains("omarchy.bar"@),
    )
}

fn is_notification_daemon_exec(p: &[char]) -> (r: bool)
    ensures
        r == is_notification_daemon(p@),
{
    eq_str(p, "mako") || eq_str(p, "dunst") || eq_str(p, "swaync") || eq_str(p, "fnott")
}

fn is_polkit_agent_exec(p: &[char]) -> (r: bool)
    ensures
        r == is_polkit_agent(p@),
{
    starts_with_str(p, "hyprpolkitagent") || starts_with_str(p, "polkit-gnome") || starts_with_str(
        p,
        "polkit-kde",
    )
}

fn is_other_bar_exec(p: &[char]) -> (r: bool)
    ensures
        r == is_other_bar(p@),
{
    eq_str(p, "waybar") || eq_str(p, "eww")
}

fn message(p: &[char], tail: &str) -> (r: String)
    ensures
        r@ == p@ + tail@,
{
    let mut m: Vec<char> = Vec::new();
    extend_chars(&mut m, p);
    extend_str(&mut m, tail);
    string_of(m.as_slice())
}

fn scan_gated(processes: &[String], notif: bool, polkit: bool, bar: bool) -> (r: Vec<CheckResult>)
    ensures
        checks_view(r@) == scan_rows(sviews(processes@), notif, polkit, bar),
{
    let mut out: Vec<CheckResult> = Vec::new();
    let mut i: usize = 0;
    assert(sviews(processes@).take(0) =~= Seq::<Seq<char>>::empty());
    while i < processes.len()
        invariant
            i <= processes.len(),
            checks_view(out@) == scan_rows(sviews(processes@).take(i as int), notif, polkit, bar),
        decreases processes.len() - i,
    {
        let ghost pre = sviews(processes@).take(i as int);
        let ghost before = checks_view(out@);
        let p = chars_of(processes[i].as_str());
        let ghost pv = p@;
        if notif && is_notification_daemon_exec(p.as_slice()) {
            let m = message(p.as_slice(), " owns the notifications bus name");
            let ghost o = out@;
            out.push(CheckResult::warn("omarchy.notifications", m.as_str()));
            assert(checks_view(out@) =~= checks_view(o).push(check_view(out@.last())));
        }
        let ghost mid1 = checks_view(out@);
        if polkit && is_polkit_agent_exec(p.as_slice()) {
            let m = message(p.as_slice(), " is a polkit auth agent");
            let ghost o = out@;
            out.push(CheckResult::warn("omarchy.polkit", m.as_str()));
            assert(checks_view(out@) =~= checks_view(o).push(check_view(out@.last())));
        }
        let ghost mid2 = checks_view(out@);
        if bar && is_other_bar_exec(p.as_slice()) {
            let m = message(p.as_slice(), " runs alongside; coexistence fine (empty layout)");
            let ghost o = out@;
            out.push(CheckResult::info("bar", m.as_str()));
            assert(checks_view(out@) =~= checks_view(o).push(check_view(out@.last())));
        }
        proof {
            reveal_strlit("WARN");
            reveal_strlit("INFO");
            assert(sviews(processes@).take(i + 1).drop_last() == pre);
            assert(sviews(processes@).take(i + 1).last() == pv);
            assert(checks_view(out@) =~= before + rows_for(pv, notif, polkit, bar));
        }
        i += 1;
    }
    assert(sviews(processes@).take(processes.len() as int) == sviews(processes@));
    out
}

/// The conflict matrix over live bus processes.
pub fn scan(processes: &[String]) -> (r: Vec<CheckResult>)
    ensures
        checks_view(r@) == scan_spec(sviews(processes@)),
{
    scan_gated(processes, true, true, true)
}

/// The conflict matrix, gated on the matrix components that are enabled.
pub fn scan_enabled(processes: &[String], enabled: &[String]) -> (r: Vec<CheckResult>)
    ensures
        checks_view(r@) == scan_enabled_spec(sviews(processes@), sviews(enabled@)),
{
    let n = chars_of("omarchy.notifications");
    let k = chars_of("omarchy.polkit");
    let b = chars_of("omarchy.bar");
    let gn = contains_string(enabled, n.as_slice());
    let gk = contains_string(enabled, k.as_slice());
    let gb = contains_string(enabled, b.as_slice());
    scan_gated(processes, gn, gk, gb)
}

} // verus!
