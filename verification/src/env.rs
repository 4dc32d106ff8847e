//! The process environment for anything spawned inside the pinned tree:
//! `OMARCHY_PATH` set to the pin dir, its `bin/` prepended to PATH.
use vstd::prelude::*;

use crate::paths::{join_exec, join_spec};
use crate::text::{chars_of, contains_char, extend_str, string_of};

verus! {

/// `pin/bin` joined in front of the inherited PATH (`split_paths` then
/// `join_paths` on `:`), or `pin/bin` alone when it cannot be joined
/// because it holds a `:` itself.
pub open spec fn prepend_bin_spec(pin_dir: Seq<char>, current_path: Seq<char>) -> Seq<char> {
    let bin = join_spec(pin_dir, "bin"@);
    if bin.contains(':') {
        bin
    } else {
        bin + ":"@ + current_path
    }
}

pub fn prepend_bin(pin_dir: &str, current_path: &str) -> (r: String)
    ensures
        r@ == prepend_bin_spec(pin_dir@, current_path@),
{
    let bin = join_exec(pin_dir, "bin");
    let b = chars_of(bin.as_str());
    if contains_char(b.as_slice(), ':') {
        return bin;
    }
    let mut v = b;
    extend_str(&mut v, ":");
    extend_str(&mut v, current_path);
    string_of(v.as_slice())
}

/// Environment pairs for an explicit inherited PATH.
pub fn build(pin_dir: &str, current_path: &str) -> (r: Vec<(String, String)>)
    ensures
        r.len() == 2,
        r@[0].0@ == "OMARCHY_PATH"@,
        r@[0].1@ == pin_dir@,
        r@[1].0@ == "PATH"@,
        r@[1].1@ == prepend_bin_spec(pin_dir@, current_path@),
{
    let mut v: Vec<(String, String)> = Vec::new();
    v.push(("OMARCHY_PATH".to_owned(), pin_dir.to_owned()));
    v.push(("PATH".to_owned(), prepend_bin(pin_dir, current_path)));
    v
}

/// The shell spelling of the same contract: exports ending in `;`, ready to
/// prefix an `exec …` inside `sh -c '…'`.
pub open spec fn shell_exports_spec(pin_dir: Seq<char>) -> Seq<char> {
    "export OMARCHY_PATH=\""@ + pin_dir + "\"; export PATH=\""@ + pin_dir + "/bin:$PATH\";"@
}

pub fn shell_exports(pin_dir: &str) -> (r: String)
    ensures
        r@ == shell_exports_spec(pin_dir@),
{
    let mut v: Vec<char> = Vec::new();
    extend_str(&mut v, "export OMARCHY_PATH=\"");
    extend_str(&mut v, pin_dir);
    extend_str(&mut v, "\"; export PATH=\"");
    extend_str(&mut v, pin_dir);
    extend_str(&mut v, "/bin:$PATH\";");
    string_of(v.as_slice())
}

} // verus!
