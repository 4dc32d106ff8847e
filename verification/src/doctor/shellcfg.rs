//! The conflict-matrix components that `shell.json` enables. An absent
//! `disabledPlugins` disables nothing: `{}` means everything first-party is on.
use vstd::prelude::*;

use crate::json::{arr_at, as_str_chars, contains_str_value, get, get_field, str_of, Json, JsonV};
use crate::text::{chars_of, eq_str, seq_eq, sviews};

verus! {

/// The bar component.
pub const BAR: &'static str = "omarchy.bar";

/// The notifications component.
pub const NOTIFICATIONS: &'static str = "omarchy.notifications";

/// The polkit agent component.
pub const POLKIT: &'static str = "omarchy.polkit";

/// `config["bar"]["id"]` as a string, defaulting to the omarchy bar.
pub open spec fn bar_id_of(d: JsonV) -> Seq<char> {
    match get(d, "bar"@) {
        Some(b) => match get(b, "id"@) {
            Some(v) => match str_of(v) {
                Some(s) => s,
                None => BAR@,
            },
            None => BAR@,
        },
        None => BAR@,
    }
}

/// Is `id` listed in `disabledPlugins[]`?
pub open spec fn listed_disabled(d: JsonV, id: Seq<char>) -> bool {
    arr_at(d, "disabledPlugins"@).contains(JsonV::Str(id))
}

/// The enabled matrix components, in matrix order.
pub open spec fn enabled_spec(d: JsonV) -> Seq<Seq<char>> {
    (if bar_id_of(d) == BAR@ {
        seq![BAR@]
    } else {
        Seq::empty()
    }) + (if !listed_disabled(d, NOTIFICATIONS@) {
        seq![NOTIFICATIONS@]
    } else {
        Seq::empty()
    }) + (if !listed_disabled(d, POLKIT@) {
        seq![POLKIT@]
    } else {
        Seq::empty()
    })
}

fn listed(config: &Json, id: &[char]) -> (r: bool)
    ensures
        r == listed_disabled(config@, id@),
{
    let k = chars_of("disabledPlugins");
    match get_field(config, k.as_slice()) {
        Some(v) => match v {
            Json::Array(a) => contains_str_value(a, id),
            _ => false,
        },
        None => false,
    }
}

/// Which conflict-matrix components `config` enables.
pub fn enabled_components(config: &Json) -> (r: Vec<String>)
    ensures
        sviews(r@) == enabled_spec(config@),
{
    let mut out: Vec<String> = Vec::new();
    let bk = chars_of("bar");
    let ik = chars_of("id");
    let bar_chars = chars_of(BAR);
    let bar_is_ours = match get_field(config, bk.as_slice()) {
        Some(b) => match get_field(b, ik.as_slice()) {
            Some(v) => match as_str_chars(v) {
                Some(s) => seq_eq(s.as_slice(), bar_chars.as_slice()),
                None => true,
            },
            None => true,
        },
        None => true,
    };
    if bar_is_ours {
        out.push(BAR.to_owned());
    }
    let ghost o1 = sviews(out@);
    let n = chars_of(NOTIFICATIONS);
    if !listed(config, n.as_slice()) {
        out.push(NOTIFICATIONS.to_owned());
    }
    let ghost o2 = sviews(out@);
    let p = chars_of(POLKIT);
    if !listed(config, p.as_slice()) {
        out.push(POLKIT.to_owned());
    }
    assert(sviews(out@) =~= enabled_spec(config@));
    out
}

} // verus!
