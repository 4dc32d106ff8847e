//! Hyprland wiring: the managed `~/.config/hypr/opb.lua`, rendered against
//! the active pin; activation is the user's one `require("opb")` line.
//! Writing and removing the files happens at the edge.
use vstd::prelude::*;

use crate::text::{
    chars_of, contains, lines, lines_exec, replace_all, replace_all_exec, starts_with,
    starts_with_str, string_of, trim, trim_exec, trim_start, trim_start_exec, vviews,
};

verus! {

/// First line of every opb-generated hyprlang file: how dead artifacts of
/// that era are recognized during cleanup.
pub const MANAGED_MARKER: &'static str = "# Managed by opb";

/// The managed opb.lua, with `<PIN>`, `<KEYS>` and `<CURRENT>` to fill in.
pub const TEMPLATE: &'static str = r#"-- Managed by opb — regenerate with `opb enable`. Do not edit by hand.
-- Session wiring for the pinned omarchy-shell: autostart + keybinds.
--
-- Activate by adding this line to your Hyprland Lua config:
--   require("opb")
-- Deactivate with `opb disable` and remove that line.
--
-- Keybinds live in OPB_KEYS below (user-owned): edit it freely, or manage
-- entries with `opb keys set` / `opb keys import-suggested`.

local OPB_PIN = [[<PIN>]]
local OPB_KEYS = [[<KEYS>]]

-- Self-contained exec: every opb-spawned command carries the pin env, so no
-- session-wide env is needed.
local function opb_quote(s)
  return "'" .. s:gsub("'", "'\\''") .. "'"
end

local function opb_exec(cmd)
  local inner = "export OMARCHY_PATH=" .. opb_quote(OPB_PIN)
    .. "; export PATH=" .. opb_quote(OPB_PIN .. "/bin:$PATH")
    .. "; exec " .. cmd
  return "sh -c " .. opb_quote(inner)
end

-- Fires once per Hyprland instance — never on reload (exec-once semantics).
hl.on("hyprland.start", function()
  hl.exec_cmd(opb_exec("quickshell -p " .. opb_quote("<CURRENT>/shell")))
end)

-- Load user keybinds when present. Optional until `opb keys …` creates the
-- file; it stays authoritative — opb only ever appends entries.
local f = io.open(OPB_KEYS, "r")
if f then
  f:close()
  dofile(OPB_KEYS)
end
"#;

/// The template with the pin dir, the keys file and the `current` link
/// filled in, in that order.
pub open spec fn render_spec(pin_dir: Seq<char>, current_dir: Seq<char>, keys_path: Seq<char>) -> Seq<char> {
    replace_all(
        replace_all(replace_all(TEMPLATE@, "<PIN>"@, pin_dir), "<KEYS>"@, keys_path),
        "<CURRENT>"@,
        current_dir,
    )
}

/// Render the managed opb.lua against the active pin.
pub fn render(pin_dir: &str, current_dir: &str, keys_path: &str) -> (r: String)
    ensures
        r@ == render_spec(pin_dir@, current_dir@, keys_path@),
{
    proof {
        reveal_strlit("<PIN>");
        reveal_strlit("<KEYS>");
        reveal_strlit("<CURRENT>");
    }
    let t = chars_of(TEMPLATE);
    let a = replace_all_exec(t.as_slice(), chars_of("<PIN>").as_slice(), chars_of(pin_dir).as_slice());
    let b = replace_all_exec(a.as_slice(), chars_of("<KEYS>").as_slice(), chars_of(keys_path).as_slice());
    let c = replace_all_exec(b.as_slice(), chars_of("<CURRENT>").as_slice(), chars_of(current_dir).as_slice());
    string_of(c.as_slice())
}

/// The one line the user adds to their Hyprland Lua config.
pub fn require_hint() -> (r: &'static str)
    ensures
        r@ == "require(\"opb\")"@,
{
    "require(\"opb\")"
}

/// Does a (trimmed) line activate the wiring? A `require` of opb in any
/// quoting, or a `dofile` of opb.lua.
pub open spec fn activates(t: Seq<char>) -> bool {
    contains(t, "opb"@) && (contains(t, "require(\"opb\")"@) || contains(t, "require('opb')"@) || contains(
        t,
        "require \"opb\""@,
    ) || contains(t, "require 'opb'"@) || (starts_with(t, "dofile"@) && contains(t, "opb.lua"@)))
}

/// Does the user's Hyprland Lua config already activate the wiring?
pub open spec fn already_required_spec(src: Seq<char>) -> bool {
    exists|i: int| 0 <= i < lines(src).len() && #[trigger] activates(trim(lines(src)[i]))
}

pub fn already_required(hyprland_lua_src: &str) -> (r: bool)
    ensures
        r == already_required_spec(hyprland_lua_src@),
{
    let c = chars_of(hyprland_lua_src);
    let ls = lines_exec(c.as_slice());
    let ghost lv = vviews(ls@);
    let mut i: usize = 0;
    while i < ls.len()
        invariant
            i <= ls.len(),
            lv == vviews(ls@),
            lv == lines(hyprland_lua_src@),
            forall|j: int| 0 <= j < i ==> !#[trigger] activates(trim(lv[j])),
        decreases ls.len() - i,
    {
        let t = trim_exec(ls[i].as_slice());
        assert(lv[i as int] == ls@[i as int]@);
        let hit = crate::text::contains_str(t.as_slice(), "opb") && (crate::text::contains_str(
            t.as_slice(),
            "require(\"opb\")",
        ) || crate::text::contains_str(t.as_slice(), "require('opb')") || crate::text::contains_str(
            t.as_slice(),
            "require \"opb\"",
        ) || crate::text::contains_str(t.as_slice(), "require 'opb'") || (starts_with_str(
            t.as_slice(),
            "dofile",
        ) && crate::text::contains_str(t.as_slice(), "opb.lua")));
        if hit {
            assert(activates(trim(lv[i as int])));
            return true;
        }
        i += 1;
    }
    false
}

/// hyprland.lua with the activation line added, or `None` when the file
/// already activates the wiring: a newline first when the file does not end
/// in one, then `require("opb")` on a line of its own.
pub open spec fn require_added_spec(src: Seq<char>) -> Option<Seq<char>> {
    if already_required_spec(src) {
        None
    } else {
        Some(
            (if src.len() > 0 && src.last() != '\n' {
                src + "\n"@
            } else {
                src
            }) + "require(\"opb\")\n"@,
        )
    }
}

pub fn with_require_line(hyprland_lua_src: &str) -> (r: Option<String>)
    ensures
        match r {
            Some(t) => require_added_spec(hyprland_lua_src@) == Some(t@),
            None => require_added_spec(hyprland_lua_src@) is None,
        },
{
    if already_required(hyprland_lua_src) {
        return None;
    }
    let c = chars_of(hyprland_lua_src);
    let mut v: Vec<char> = Vec::new();
    crate::text::extend_chars(&mut v, c.as_slice());
    if c.len() > 0 && c[c.len() - 1] != '\n' {
        crate::text::extend_str(&mut v, "\n");
    }
    crate::text::extend_str(&mut v, "require(\"opb\")\n");
    Some(string_of(v.as_slice()))
}

/// Adding the activation line activates the wiring: the file it writes is
/// one `opb enable` then reports as already activated.
pub proof fn law_require_line_activates(src: Seq<char>)
    ensures
        require_added_spec(src) matches Some(t) ==> already_required_spec(t),
{
    if !already_required_spec(src) {
        reveal_strlit("\n");
        reveal_strlit("require(\"opb\")\n");
        reveal_strlit("require(\"opb\")");
        reveal_strlit("opb");
        let line = "require(\"opb\")"@;
        let p = if src.len() > 0 && src.last() != '\n' {
            src + "\n"@
        } else {
            src
        };
        let t = p + "require(\"opb\")\n"@;
        assert("require(\"opb\")\n"@ =~= line + "\n"@);
        assert(crate::keys::readback::free_of(line, '\n'));
        crate::keys::readback::lemma_lines_one(line);
        assert(line.last() == ')');
        assert(crate::text::strip_cr(line) == line);
        let k: int = if p.len() == 0 {
            assert(t =~= line + "\n"@);
            0
        } else {
            assert(p.last() == '\n');
            crate::keys::readback::lemma_lines_concat(p, line + "\n"@);
            assert(t =~= p + (line + "\n"@));
            lines(p).len() as int
        };
        assert(lines(t)[k] == line);
        assert(trim_start(line) == line);
        assert(crate::text::trim_end(line) == line);
        assert(trim(line) == line);
        assert(crate::text::occurs_at(line, line, 0)) by {
            assert(line.subrange(0, line.len() as int) =~= line);
        }
        assert(crate::text::occurs_at(line, "opb"@, 9)) by {
            assert(line.subrange(9, 12) =~= "opb"@);
        }
        assert(activates(trim(lines(t)[k])));
    }
}

/// Is this file ours (marker header), i.e. safe to delete during cleanup?
pub fn is_managed(src: &str) -> (r: bool)
    ensures
        r == starts_with(trim_start(src@), MANAGED_MARKER@),
{
    let c = chars_of(src);
    let t = trim_start_exec(c.as_slice());
    starts_with_str(t.as_slice(), MANAGED_MARKER)
}

/// What `opb enable` reports to the user.
#[derive(Debug, Clone, Copy, PartialEq, Eq)]
pub struct EnableReport {
    /// A stale managed `opb.conf` of the hyprlang era was removed.
    pub legacy_conf_removed: bool,
    /// The user's hyprland.lua does not activate opb yet.
    pub needs_require_line: bool,
}

/// Why `opb enable` refuses.
#[derive(Debug, Clone, PartialEq, Eq)]
pub enum HyprError {
    /// No Lua Hyprland config at this path: a hyprlang setup cannot load a
    /// Lua module.
    NoLuaConfig(String),
}

impl HyprError {
    pub fn message(&self) -> (r: String)
        ensures
            r@ == match *self {
                HyprError::NoLuaConfig(p) => p@
                    + " not found — opb session wiring requires a Lua-config Hyprland (hyprlang setups are unsupported)"@,
            },
    {
        match self {
            HyprError::NoLuaConfig(p) => {
                let mut v: Vec<char> = Vec::new();
                crate::text::extend_str(&mut v, p.as_str());
                crate::text::extend_str(
                    &mut v,
                    " not found — opb session wiring requires a Lua-config Hyprland (hyprlang setups are unsupported)",
                );
                string_of(v.as_slice())
            },
        }
    }
}

/// A file as the edge found it: absent, present but unreadable, or its text.
pub open spec fn file_text(f: Option<Option<&str>>) -> Option<Option<Seq<char>>> {
    match f {
        None => None,
        Some(None) => Some(None),
        Some(Some(t)) => Some(Some(t@)),
    }
}

/// Is the hyprlang-era `opb.conf` still ours to delete (present, readable,
/// carrying the marker)?
pub open spec fn legacy_owned(legacy: Option<Option<Seq<char>>>) -> bool {
    legacy matches Some(Some(t)) && starts_with(trim_start(t), MANAGED_MARKER@)
}

pub fn legacy_removable(legacy: Option<Option<&str>>) -> (r: bool)
    ensures
        r == legacy_owned(file_text(legacy)),
{
    match legacy {
        Some(Some(t)) => is_managed(t),
        _ => false,
    }
}

/// What `opb enable` will report, given hyprland.lua (at `hyprland_lua`)
/// and the legacy `opb.conf` as found; refused when hyprland.lua is absent.
/// An unreadable hyprland.lua counts as not activating opb yet.
pub fn enable_report(
    hyprland_lua: &str,
    lua: Option<Option<&str>>,
    legacy: Option<Option<&str>>,
) -> (r: Result<EnableReport, HyprError>)
    ensures
        lua is None ==> (r matches Err(HyprError::NoLuaConfig(p)) && p@ == hyprland_lua@),
        lua is Some ==> (r matches Ok(rep) && rep.legacy_conf_removed == legacy_owned(file_text(legacy))
            && rep.needs_require_line == !(file_text(lua) matches Some(Some(t)) && already_required_spec(t))),
{
    match lua {
        None => Err(HyprError::NoLuaConfig(hyprland_lua.to_owned())),
        Some(src) => {
            let required = match src {
                Some(t) => already_required(t),
                None => false,
            };
            Ok(EnableReport { legacy_conf_removed: legacy_removable(legacy), needs_require_line: !required })
        },
    }
}

} // verus!

