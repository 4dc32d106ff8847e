//! Resolved filesystem locations, per owner: opb state and the Hyprland
//! wiring follow the injected data and config roots; the omarchy config is
//! fixed at `$HOME/.config/omarchy`, where the upstream shell reads it.
//! Reading the environment to find the roots happens at the edge.
use vstd::prelude::*;

use crate::text::{chars_of, extend_str, string_of};

verus! {

/// Pin directories are named `omarchy@<commit>`.
pub const PIN_DIRNAME_PREFIX: &'static str = "omarchy@";

/// The link inside `upstream/` that points at the active pin.
pub const CURRENT_LINK: &'static str = "current";

pub const LOCK_FILENAME: &'static str = "upstream.lock";

/// `Path::join` on text: an absolute `b` replaces `a`; otherwise `b` is
/// appended after a separating `/` (none when `a` is empty or ends in one).
pub open spec fn join_spec(a: Seq<char>, b: Seq<char>) -> Seq<char> {
    if b.len() > 0 && b[0] == '/' {
        b
    } else if a.len() == 0 || a.last() == '/' {
        a + b
    } else {
        a + "/"@ + b
    }
}

pub fn join_exec(a: &str, b: &str) -> (r: String)
    ensures
        r@ == join_spec(a@, b@),
{
    let ac = chars_of(a);
    let bc = chars_of(b);
    if bc.len() > 0 && bc[0] == '/' {
        return b.to_owned();
    }
    let mut v = ac;
    if v.len() > 0 && v[v.len() - 1] != '/' {
        v.push('/');
        proof {
            reveal_strlit("/");
        }
    }
    extend_str(&mut v, b);
    string_of(v.as_slice())
}

/// The three roots everything else is resolved from.
#[derive(Debug, Clone)]
pub struct Paths {
    home: String,
    data_root: String,
    config_root: String,
}

impl View for Paths {
    type V = (Seq<char>, Seq<char>, Seq<char>);

    closed spec fn view(&self) -> (Seq<char>, Seq<char>, Seq<char>) {
        (self.home@, self.data_root@, self.config_root@)
    }
}

pub open spec fn opb_state_spec(p: (Seq<char>, Seq<char>, Seq<char>)) -> Seq<char> {
    join_spec(p.1, "opb"@)
}

pub open spec fn upstream_spec(p: (Seq<char>, Seq<char>, Seq<char>)) -> Seq<char> {
    join_spec(opb_state_spec(p), "upstream"@)
}

pub open spec fn omarchy_config_spec(p: (Seq<char>, Seq<char>, Seq<char>)) -> Seq<char> {
    join_spec(p.0, ".config/omarchy"@)
}

pub open spec fn hypr_config_spec(p: (Seq<char>, Seq<char>, Seq<char>)) -> Seq<char> {
    join_spec(p.2, "hypr"@)
}

pub open spec fn opb_config_spec(p: (Seq<char>, Seq<char>, Seq<char>)) -> Seq<char> {
    join_spec(p.2, "opb"@)
}

impl Paths {
    /// The default layout below `home`: `~/.local/share` and `~/.config`.
    pub fn new(home: &str) -> (r: Paths)
        ensures
            r@ == (home@, join_spec(home@, ".local/share"@), join_spec(home@, ".config"@)),
    {
        let data_root = join_exec(home, ".local/share");
        let config_root = join_exec(home, ".config");
        Paths { home: home.to_owned(), data_root, config_root }
    }

    /// Explicit roots.
    pub fn from_parts(home: String, data_root: String, config_root: String) -> (r: Paths)
        ensures
            r@ == (home@, data_root@, config_root@),
    {
        Paths { home, data_root, config_root }
    }

    pub fn home(&self) -> (r: &str)
        ensures
            r@ == self@.0,
    {
        self.home.as_str()
    }

    /// opb-owned state root: `…/opb`.
    pub fn opb_state_dir(&self) -> (r: String)
        ensures
            r@ == opb_state_spec(self@),
    {
        join_exec(self.data_root.as_str(), "opb")
    }

    /// One dir per pin plus the `current` link: `…/opb/upstream`.
    pub fn upstream_dir(&self) -> (r: String)
        ensures
            r@ == upstream_spec(self@),
    {
        let s = self.opb_state_dir();
        join_exec(s.as_str(), "upstream")
    }

    /// `omarchy@<commit>`.
    pub fn pin_dirname(commit: &str) -> (r: String)
        ensures
            r@ == PIN_DIRNAME_PREFIX@ + commit@,
    {
        let mut v: Vec<char> = Vec::new();
        extend_str(&mut v, PIN_DIRNAME_PREFIX);
        extend_str(&mut v, commit);
        string_of(v.as_slice())
    }

    /// The (immutable) checkout of the pin at `commit`.
    pub fn pin_dir(&self, commit: &str) -> (r: String)
        ensures
            r@ == join_spec(upstream_spec(self@), PIN_DIRNAME_PREFIX@ + commit@),
    {
        let u = self.upstream_dir();
        let n = Self::pin_dirname(commit);
        join_exec(u.as_str(), n.as_str())
    }

    /// The link pointing at the active pin.
    pub fn current_dir(&self) -> (r: String)
        ensures
            r@ == join_spec(upstream_spec(self@), CURRENT_LINK@),
    {
        let u = self.upstream_dir();
        join_exec(u.as_str(), CURRENT_LINK)
    }

    /// `…/opb/upstream.lock`.
    pub fn lock_file(&self) -> (r: String)
        ensures
            r@ == join_spec(opb_state_spec(self@), LOCK_FILENAME@),
    {
        let s = self.opb_state_dir();
        join_exec(s.as_str(), LOCK_FILENAME)
    }

    /// `$HOME/.config/omarchy`, fixed: upstream reads exactly this.
    pub fn omarchy_config_dir(&self) -> (r: String)
        ensures
            r@ == omarchy_config_spec(self@),
    {
        join_exec(self.home.as_str(), ".config/omarchy")
    }

    /// `$HOME/.config/omarchy/shell.json`.
    pub fn shell_json(&self) -> (r: String)
        ensures
            r@ == join_spec(omarchy_config_spec(self@), "shell.json"@),
    {
        let d = self.omarchy_config_dir();
        join_exec(d.as_str(), "shell.json")
    }

    /// Hyprland's config dir: `…/hypr`.
    pub fn hypr_config_dir(&self) -> (r: String)
        ensures
            r@ == hypr_config_spec(self@),
    {
        join_exec(self.config_root.as_str(), "hypr")
    }

    /// `…/hypr/opb.conf`, the managed block of the hyprlang era.
    pub fn opb_conf(&self) -> (r: String)
        ensures
            r@ == join_spec(hypr_config_spec(self@), "opb.conf"@),
    {
        let d = self.hypr_config_dir();
        join_exec(d.as_str(), "opb.conf")
    }

    /// The stale managed `opb.conf` that enabling cleans up.
    pub fn legacy_opb_conf(&self) -> (r: String)
        ensures
            r@ == join_spec(hypr_config_spec(self@), "opb.conf"@),
    {
        self.opb_conf()
    }

    /// `…/hypr/hyprland.lua`, the user's Hyprland entry point.
    pub fn hyprland_lua(&self) -> (r: String)
        ensures
            r@ == join_spec(hypr_config_spec(self@), "hyprland.lua"@),
    {
        let d = self.hypr_config_dir();
        join_exec(d.as_str(), "hyprland.lua")
    }

    /// `…/hypr/opb.lua`, the managed session wiring.
    pub fn opb_lua(&self) -> (r: String)
        ensures
            r@ == join_spec(hypr_config_spec(self@), "opb.lua"@),
    {
        let d = self.hypr_config_dir();
        join_exec(d.as_str(), "opb.lua")
    }

    /// `…/opb`, the user-owned opb config dir.
    pub fn opb_config_dir(&self) -> (r: String)
        ensures
            r@ == opb_config_spec(self@),
    {
        join_exec(self.config_root.as_str(), "opb")
    }

    /// `…/opb/keys.lua`, the user's keybinds.
    pub fn keys_lua(&self) -> (r: String)
        ensures
            r@ == join_spec(opb_config_spec(self@), "keys.lua"@),
    {
        let d = self.opb_config_dir();
        join_exec(d.as_str(), "keys.lua")
    }

    /// The user font dir: `…/fonts` below the data root.
    pub fn fonts_dir(&self) -> (r: String)
        ensures
            r@ == join_spec(self@.1, "fonts"@),
    {
        join_exec(self.data_root.as_str(), "fonts")
    }

    /// The pid file of the keybind keeper.
    pub fn watch_pid(&self) -> (r: String)
        ensures
            r@ == join_spec(opb_state_spec(self@), "keys-watch.pid"@),
    {
        let s = self.opb_state_dir();
        join_exec(s.as_str(), "keys-watch.pid")
    }
}

} // verus!
