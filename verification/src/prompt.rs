//! Yes/no answers: reading the terminal happens at the edge; what a typed
//! line means is decided here.
use vstd::prelude::*;

use crate::text::{chars_of, eq_str, trim, trim_exec, upper, upper_exec};

verus! {

/// The choice hint shown after a question: the capital letter is the default.
pub fn hint(default_yes: bool) -> (r: &'static str)
    ensures
        r@ == if default_yes {
            "[Y/n]"@
        } else {
            "[y/N]"@
        },
{
    if default_yes {
        "[Y/n]"
    } else {
        "[y/N]"
    }
}

/// The answer a typed line gives: `y`/`yes` is yes, `n`/`no` is no (any
/// case, surrounding whitespace ignored); anything else, an empty line
/// included, takes the default.
pub open spec fn answer_spec(line: Seq<char>, default_yes: bool) -> bool {
    let a = upper(trim(line));
    if a == "Y"@ || a == "YES"@ {
        true
    } else if a == "N"@ || a == "NO"@ {
        false
    } else {
        default_yes
    }
}

pub fn answer(line: &str, default_yes: bool) -> (r: bool)
    ensures
        r == answer_spec(line@, default_yes),
{
    let c = chars_of(line);
    let t = trim_exec(c.as_slice());
    let u = upper_exec(t.as_slice());
    if eq_str(u.as_slice(), "Y") || eq_str(u.as_slice(), "YES") {
        true
    } else if eq_str(u.as_slice(), "N") || eq_str(u.as_slice(), "NO") {
        false
    } else {
        default_yes
    }
}

} // verus!
