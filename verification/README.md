# omarchy-plugin-bridge

`opb` runs upstream omarchy-shell on a raw Arch + Hyprland system: it pins an
upstream release, generates an all-off `shell.json`, wires session autostart
into a Lua Hyprland config on consent, manages keybinds in a user-owned
`keys.lua`, and forwards plugin operations to upstream's own helper.

## Layout

- `src/` — the library, verified with Verus: the `shell.json` model and its
  edits (`json`, `selection`, `shelljson`), the keybind catalog, combo parser
  and `keys.lua` writer (`keys`), pin bookkeeping and update planning (`pin`,
  `update`, `bootstrap`), the check reports (`check`, `deps`, `doctor`,
  `status`), and the small decisions of every command. Laws that relate
  several operations are stated as public proof functions (`law_*`).
- `app/` — the `opb` binary: argument parsing, files, processes, `git`,
  `hyprctl`, terminal prompts. It reads and writes; the library decides.
- `tests/` — tests of the library on concrete values.
