//! `opb up` / `opb down`: the shell is launched and found through the
//! `current` link. The process pattern is computed here; spawning,
//! signalling and pinging run at the edge.
use vstd::prelude::*;

use crate::paths::{join_exec, join_spec, upstream_spec, Paths, CURRENT_LINK};
use crate::text::{chars_of, extend_chars, extend_str, string_of};

verus! {

/// The shell config dir, always spelled through the `current` link.
pub fn shell_dir(paths: &Paths) -> (r: String)
    ensures
        r@ == join_spec(join_spec(upstream_spec(paths@), CURRENT_LINK@), "shell"@),
{
    let c = paths.current_dir();
    join_exec(c.as_str(), "shell")
}

/// Characters that extended regular expressions treat specially.
pub open spec fn ere_meta(c: char) -> bool {
    c == '.' || c == '+' || c == '*' || c == '?' || c == '(' || c == ')' || c == '[' || c == ']' || c == '{'
        || c == '}' || c == '^' || c == '$' || c == '|' || c == '\\'
}

/// `s` with every metacharacter backslash-escaped.
pub open spec fn escape_ere_spec(s: Seq<char>) -> Seq<char>
    decreases s.len(),
{
    if s.len() == 0 {
        Seq::empty()
    } else {
        escape_ere_spec(s.drop_last()) + if ere_meta(s.last()) {
            seq!['\\', s.last()]
        } else {
            seq![s.last()]
        }
    }
}

/// Escape regex metacharacters for a literal `pgrep -f` pattern.
pub fn escape_ere(s: &str) -> (r: String)
    ensures
        r@ == escape_ere_spec(s@),
{
    let c = chars_of(s);
    let mut out: Vec<char> = Vec::new();
    let mut i: usize = 0;
    while i < c.len()
        invariant
            i <= c.len(),
            c@ == s@,
            out@ == escape_ere_spec(c@.take(i as int)),
        decreases c.len() - i,
    {
        let ch = c[i];
        assert(c@.take(i + 1).drop_last() == c@.take(i as int));
        assert(c@.take(i + 1).last() == ch);
        let meta = ch == '.' || ch == '+' || ch == '*' || ch == '?' || ch == '(' || ch == ')' || ch == '['
            || ch == ']' || ch == '{' || ch == '}' || ch == '^' || ch == '$' || ch == '|' || ch == '\\';
        let ghost before = out@;
        if meta {
            out.push('\\');
        }
        out.push(ch);
        assert(out@ =~= before + if ere_meta(ch) {
            seq!['\\', ch]
        } else {
            seq![ch]
        });
        i += 1;
    }
    assert(c@.take(c.len() as int) == c@);
    string_of(out.as_slice())
}

/// The `pgrep -f` pattern of the shell process: the launched command line
/// `quickshell -p <shell_dir>`, the dir escaped.
pub fn proc_pattern(shell_dir: &str) -> (r: String)
    ensures
        r@ == "quickshell -p "@ + escape_ere_spec(shell_dir@),
{
    let mut v: Vec<char> = Vec::new();
    extend_str(&mut v, "quickshell -p ");
    let e = escape_ere(shell_dir);
    extend_str(&mut v, e.as_str());
    string_of(v.as_slice())
}


/// The IPC ping answered: the pinger exited successfully and printed `ok`
/// (a wrong config path also exits 0, with another message).
pub fn ping_ok(exited_ok: bool, stdout: &str) -> (r: bool)
    ensures
        r == (exited_ok && crate::text::trim(stdout@) == "ok"@),
{
    if !exited_ok {
        return false;
    }
    let c = chars_of(stdout);
    let t = crate::text::trim_exec(c.as_slice());
    crate::text::eq_str(t.as_slice(), "ok")
}

} // verus!
