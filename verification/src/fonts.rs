//! The `omarchy` icon font: the bar's brand glyphs come from a font shipped
//! inside the pin, copied once into the user's font dir at bootstrap.
//! Probing fontconfig, copying the file and refreshing the cache happen at
//! the edge; what the copy amounts to is decided here.
use vstd::prelude::*;

use crate::check::{CheckResult, Status};
use crate::paths::{join_exec, join_spec, upstream_spec, Paths, CURRENT_LINK};

verus! {

/// Relative path of the icon font inside a pin checkout.
pub const REL: &'static str = "default/fonts/omarchy/omarchy.ttf";

/// Name of the font's check row.
pub const CHECK_NAME: &'static str = "omarchy icon font";

/// Pass when the font is present; a warning otherwise (icons degrade, the
/// shell keeps working).
pub fn check(present: bool) -> (r: CheckResult)
    ensures
        r.name == CHECK_NAME,
        present ==> r.status == Status::Pass(None),
        !present ==> (r.status matches Status::Warn(d)
            && d@ == "not installed — `opb bootstrap` copies it from the pin"@),
{
    if present {
        CheckResult::pass(CHECK_NAME)
    } else {
        CheckResult::warn(CHECK_NAME, "not installed — `opb bootstrap` copies it from the pin")
    }
}

/// Is the icon font installed? `fc-list` output for fonts covering the
/// logo glyph names the `omarchy` family (`None`: fc-list did not run).
pub fn font_listed(fc_list_out: Option<&str>) -> (r: bool)
    ensures
        r == (fc_list_out matches Some(o) && crate::text::contains(o@, "omarchy"@)),
{
    match fc_list_out {
        Some(o) => {
            let c = crate::text::chars_of(o);
            crate::text::contains_str(c.as_slice(), "omarchy")
        },
        None => false,
    }
}

/// What an install did.
#[derive(Debug, Clone, Copy, PartialEq, Eq)]
pub enum InstallOutcome {
    Installed,
    AlreadyPresent,
}

/// Where the font is read from: `REL` under the active pin.
pub fn source_path(paths: &Paths) -> (r: String)
    ensures
        r@ == join_spec(join_spec(upstream_spec(paths@), CURRENT_LINK@), REL@),
{
    let cur = paths.current_dir();
    join_exec(cur.as_str(), REL)
}

/// Where the font is installed: `omarchy/omarchy.ttf` in the user font dir.
pub fn dest_path(paths: &Paths) -> (r: String)
    ensures
        r@ == join_spec(join_spec(join_spec(paths@.1, "fonts"@), "omarchy"@), "omarchy.ttf"@),
{
    let fonts = paths.fonts_dir();
    let dir = join_exec(fonts.as_str(), "omarchy");
    join_exec(dir.as_str(), "omarchy.ttf")
}

/// What installing amounts to, given the pin's font bytes (`None`: the pin
/// ships no font) and those already at the destination (`None`: no file).
pub open spec fn install_spec(source: Option<Seq<u8>>, dest: Option<Seq<u8>>) -> InstallOutcome {
    match source {
        None => InstallOutcome::AlreadyPresent,
        Some(b) => if dest == Some(b) {
            InstallOutcome::AlreadyPresent
        } else {
            InstallOutcome::Installed
        },
    }
}

fn same_bytes(a: &[u8], b: &[u8]) -> (r: bool)
    ensures
        r == (a@ == b@),
{
    if a.len() != b.len() {
        return false;
    }
    let mut i: usize = 0;
    while i < a.len()
        invariant
            i <= a.len(),
            a.len() == b.len(),
            forall|j: int| 0 <= j < i ==> a@[j] == b@[j],
        decreases a.len() - i,
    {
        if a[i] != b[i] {
            return false;
        }
        i += 1;
    }
    assert(a@ =~= b@);
    true
}

/// `Installed` means the bytes must be written (and the font cache
/// refreshed); `AlreadyPresent` means there is nothing to do: the pin ships
/// no font, or the same bytes are already in place.
pub fn install_outcome(source: Option<&[u8]>, dest: Option<&[u8]>) -> (r: InstallOutcome)
    ensures
        r == install_spec(
            match source {
                Some(s) => Some(s@),
                None => None,
            },
            match dest {
                Some(d) => Some(d@),
                None => None,
            },
        ),
{
    match source {
        None => InstallOutcome::AlreadyPresent,
        Some(b) => match dest {
            Some(d) => if same_bytes(d, b) {
                InstallOutcome::AlreadyPresent
            } else {
                InstallOutcome::Installed
            },
            None => InstallOutcome::Installed,
        },
    }
}

} // verus!
