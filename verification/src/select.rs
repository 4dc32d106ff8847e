//! `opb select enable/disable <id>`: the selection model applied to the
//! generated shell.json. Ids resolve against the pin's and the user's
//! manifests; the edit itself is `selection`'s. Scanning manifests, reading
//! and writing shell.json and reloading the shell happen at the edge.
use vstd::prelude::*;

use crate::json::{arr_slot_ok_exec, Json, JsonV};
use crate::paths::{join_exec, join_spec, omarchy_config_spec, Paths};
use crate::selection::{
    self, disable_ready, disable_spec, enable_ready, enable_spec, first_party, is_first_party,
    Outcome, PluginKind, Section, SelectionError, BAR_ID,
};
use crate::shelljson::{has_kind, mviews, ManifestInfo};
use crate::text::{chars_of, eq_str, extend_str, string_of};

verus! {

/// One select operation.
#[derive(Debug, Clone)]
pub enum Action {
    Enable { id: String, section: Section },
    Disable { id: String },
}

#[derive(Debug, Clone, PartialEq, Eq)]
pub enum SelectError {
    /// The id is in neither the pinned tree nor the user's plugins.
    UnknownId(String),
    /// The edit itself was refused.
    Selection(SelectionError),
}

pub open spec fn unknown_text(id: Seq<char>) -> Seq<char> {
    "unknown plugin id '"@ + id
        + "' — not in the pinned tree or ~/.config/omarchy/plugins (see available ids with `opb select list`)"@
}

impl SelectError {
    pub fn message(&self) -> (r: String)
        ensures
            r@ == match *self {
                SelectError::UnknownId(id) => unknown_text(id@),
                SelectError::Selection(e) => selection::selection_error_message(e),
            },
    {
        match self {
            SelectError::UnknownId(id) => {
                let mut v: Vec<char> = Vec::new();
                extend_str(&mut v, "unknown plugin id '");
                extend_str(&mut v, id.as_str());
                extend_str(
                    &mut v,
                    "' — not in the pinned tree or ~/.config/omarchy/plugins (see available ids with `opb select list`)",
                );
                string_of(v.as_slice())
            },
            SelectError::Selection(e) => e.message(),
        }
    }
}

/// How a manifest's plugin renders: a bar widget when it declares kind
/// `bar-widget`.
pub open spec fn kind_from(kinds: Seq<Seq<char>>) -> PluginKind {
    if kinds.contains("bar-widget"@) {
        PluginKind::BarWidget
    } else {
        PluginKind::Regular
    }
}

/// The kind of the first manifest with this id, if any (pin manifests come
/// before the user's).
pub open spec fn resolve_spec(ms: Seq<(Seq<char>, Seq<Seq<char>>)>, id: Seq<char>) -> Option<PluginKind>
    decreases ms.len(),
{
    if ms.len() == 0 {
        None
    } else if ms[0].0 == id {
        Some(kind_from(ms[0].1))
    } else {
        resolve_spec(ms.drop_first(), id)
    }
}

/// Resolves an id against the scanned manifests (pin's first, then the
/// user's).
pub fn resolve_kind(manifests: &[ManifestInfo], id: &str) -> (r: Result<PluginKind, SelectError>)
    ensures
        match resolve_spec(mviews(manifests@), id@) {
            Some(k) => r == Ok::<PluginKind, SelectError>(k),
            None => r matches Err(SelectError::UnknownId(x)) && x@ == id@,
        },
{
    let ghost ms = mviews(manifests@);
    let idc = chars_of(id);
    assert(ms.skip(0) == ms);
    let mut i: usize = 0;
    while i < manifests.len()
        invariant
            i <= manifests.len(),
            ms == mviews(manifests@),
            idc@ == id@,
            resolve_spec(ms, id@) == resolve_spec(ms.skip(i as int), id@),
        decreases manifests.len() - i,
    {
        let m = &manifests[i];
        assert(ms.skip(i as int)[0] == m@);
        assert(ms.skip(i as int).drop_first() == ms.skip(i as int + 1));
        let mid = chars_of(m.id.as_str());
        if crate::text::seq_eq(mid.as_slice(), idc.as_slice()) {
            if has_kind(m, "bar-widget") {
                return Ok(PluginKind::BarWidget);
            } else {
                return Ok(PluginKind::Regular);
            }
        }
        i += 1;
    }
    assert(ms.skip(manifests.len() as int).len() == 0);
    Err(SelectError::UnknownId(id.to_owned()))
}

/// What `apply` needs of the document, short of which the edit has no
/// meaning (the root must be an object, the arrays it edits arrays).
pub open spec fn apply_ready(d: JsonV, action: Action, ms: Seq<(Seq<char>, Seq<Seq<char>>)>) -> bool {
    match action {
        Action::Enable { id, section } => match resolve_spec(ms, id@) {
            Some(k) => enable_ready(d, id@, k),
            None => true,
        },
        Action::Disable { id } => disable_ready(d, id@),
    }
}

/// Checks `apply_ready`.
pub fn apply_ready_exec(doc: &Json, action: &Action, manifests: &[ManifestInfo]) -> (r: bool)
    ensures
        r == apply_ready(doc@, *action, mviews(manifests@)),
{
    match action {
        Action::Enable { id, section } => match resolve_kind(manifests, id.as_str()) {
            Ok(k) => {
                let idc = chars_of(id.as_str());
                if eq_str(idc.as_slice(), BAR_ID) {
                    return true;
                }
                let fp = is_first_party(id.as_str());
                (!fp || arr_slot_ok_exec(doc, "disabledPlugins")) && (!(k == PluginKind::Regular
                    && !fp) || arr_slot_ok_exec(doc, "plugins"))
            },
            Err(_) => true,
        },
        Action::Disable { id } => {
            let idc = chars_of(id.as_str());
            if eq_str(idc.as_slice(), BAR_ID) {
                return true;
            }
            let fp = is_first_party(id.as_str());
            arr_slot_ok_exec(doc, "plugins") && (!fp || arr_slot_ok_exec(doc, "disabledPlugins"))
        },
    }
}

pub open spec fn lift(r: Result<Outcome, SelectionError>) -> Result<Outcome, SelectError> {
    match r {
        Ok(o) => Ok(o),
        Err(e) => Err(SelectError::Selection(e)),
    }
}

/// The document after `apply`, and its result (`None` for an unknown id,
/// whose document stays as it was).
pub open spec fn apply_spec(d: JsonV, action: Action, ms: Seq<(Seq<char>, Seq<Seq<char>>)>) -> (
    JsonV,
    Option<Result<Outcome, SelectError>>,
) {
    match action {
        Action::Enable { id, section } => match resolve_spec(ms, id@) {
            None => (d, None),
            Some(k) => {
                let (d2, r) = enable_spec(d, id@, k, section);
                (d2, Some(lift(r)))
            },
        },
        Action::Disable { id } => {
            let (d2, r) = disable_spec(d, id@);
            (d2, Some(lift(r)))
        },
    }
}

/// Applies an action to the parsed shell.json: enabling resolves the id's
/// kind first (an unknown id changes nothing); disabling the bar is
/// refused before anything else. The caller writes the document back only
/// when the outcome says it changed.
pub fn apply(doc: &mut Json, action: &Action, manifests: &[ManifestInfo]) -> (r: Result<Outcome, SelectError>)
    requires
        apply_ready(old(doc)@, *action, mviews(manifests@)),
    ensures
        final(doc)@ == apply_spec(old(doc)@, *action, mviews(manifests@)).0,
        match apply_spec(old(doc)@, *action, mviews(manifests@)).1 {
            Some(x) => r == x,
            None => r matches Err(SelectError::UnknownId(x)) && (*action matches Action::Enable { id, section }
                && x@ == id@),
        },
{
    match action {
        Action::Enable { id, section } => {
            let kind = match resolve_kind(manifests, id.as_str()) {
                Ok(k) => k,
                Err(e) => return Err(e),
            };
            match selection::enable(doc, id.as_str(), kind, *section) {
                Ok(o) => Ok(o),
                Err(e) => Err(SelectError::Selection(e)),
            }
        },
        Action::Disable { id } => match selection::disable(doc, id.as_str()) {
            Ok(o) => Ok(o),
            Err(e) => Err(SelectError::Selection(e)),
        },
    }
}

/// Where user plugins live: `plugins` in the omarchy config dir.
pub fn user_plugins_dir(paths: &Paths) -> (r: String)
    ensures
        r@ == join_spec(omarchy_config_spec(paths@), "plugins"@),
{
    let d = paths.omarchy_config_dir();
    join_exec(d.as_str(), "plugins")
}

/// The plugin roots shown to the user: the active pin's `shell/plugins`
/// (when bootstrapped), then the user's plugins dir.
pub fn plugins_roots(paths: &Paths, active_dir: Option<&str>) -> (r: Vec<String>)
    ensures
        match active_dir {
            Some(a) => r@.len() == 2 && r@[0]@ == join_spec(a@, "shell/plugins"@) && r@[1]@ == join_spec(
                omarchy_config_spec(paths@),
                "plugins"@,
            ),
            None => r@.len() == 1 && r@[0]@ == join_spec(omarchy_config_spec(paths@), "plugins"@),
        },
{
    let mut roots: Vec<String> = Vec::new();
    match active_dir {
        Some(a) => {
            roots.push(join_exec(a, "shell/plugins"));
        },
        None => {},
    }
    roots.push(user_plugins_dir(paths));
    roots
}

} // verus!
