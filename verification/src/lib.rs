//! Verified core of the omarchy-plugin-bridge: text parsing, shell.json
//! editing, keybind catalog, pin bookkeeping and report rendering.
use vstd::prelude::*;

pub mod text;
pub mod json;
pub mod shelljson;
pub mod selection;
pub mod exit;
pub mod check;
pub mod version;
pub mod deps;
pub mod doctor;
pub mod keys;
pub mod paths;
pub mod env;
pub mod plugin_list;
pub mod plugin;
pub mod plugin_place;
pub mod plugin_edit;
pub mod pin;
pub mod update;
pub mod git;
pub mod selfupdate;
pub mod hypr;
pub mod shell;
pub mod fonts;
pub mod prompt;
pub mod status;
pub mod bootstrap;
pub mod select;

verus! {
}
