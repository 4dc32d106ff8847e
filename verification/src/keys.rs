//! Keybinds: the action catalog parsed from upstream's binding files, the
//! bind state resolved from the user's keys.lua, the combo parser and the
//! collision engine, and the keys.lua writer's text transformations.
use vstd::prelude::*;

pub mod laws;
pub mod readback;
pub mod surfaces;

use crate::json::Json;
use crate::text::{
    chars_of, contains, dec, dec_exec, debug_quoted, debug_str, ends_with, eq_str, extend_chars,
    extend_str, find_spec, find_str, lines, lines_exec, slice_vec, split_char, split_char_exec,
    starts_with, starts_with_str, string_of, trim, trim_exec, trim_start, trim_start_exec, unquote,
    unquote_exec, upper, upper_exec, vviews, ws_tokens, ws_tokens_exec, seq_eq,
};

verus! {

pub const MOD_SHIFT: u32 = 1;

pub const MOD_CTRL: u32 = 4;

pub const MOD_ALT: u32 = 8;

pub const MOD_SUPER: u32 = 64;

// --- combos ------------------------------------------------------------------------

/// A normalized combo: modmask plus key (an uppercased keysym, or `code:N`
/// kept verbatim).
#[derive(Debug, Clone, PartialEq)]
pub struct Combo {
    pub modmask: u32,
    pub key: String,
}

impl View for Combo {
    type V = (u32, Seq<char>);

    open spec fn view(&self) -> (u32, Seq<char>) {
        (self.modmask, self.key@)
    }
}

/// One bind as Hyprland reports it.
#[derive(Debug, Clone, PartialEq)]
pub struct LiveBind {
    pub modmask: u32,
    pub key: String,
    pub keycode: u32,
}

/// `SUPER + `, `CTRL + `, `ALT + `, `SHIFT + ` for the bits that are set, in
/// that order.
pub open spec fn mods_text(mask: u32) -> Seq<char> {
    (if mask & 64 != 0 {
        "SUPER + "@
    } else {
        Seq::empty()
    }) + (if mask & 4 != 0 {
        "CTRL + "@
    } else {
        Seq::empty()
    }) + (if mask & 8 != 0 {
        "ALT + "@
    } else {
        Seq::empty()
    }) + (if mask & 1 != 0 {
        "SHIFT + "@
    } else {
        Seq::empty()
    })
}

/// The key a live bind reports: `code:N` for keycode binds, else the keysym.
pub open spec fn live_key(b: LiveBind) -> Seq<char> {
    if b.keycode > 0 {
        "code:"@ + dec(b.keycode as nat)
    } else {
        b.key@
    }
}

fn mods_exec(mask: u32, out: &mut Vec<char>)
    ensures
        final(out)@ == old(out)@ + mods_text(mask),
{
    let ghost o = out@;
    if mask & MOD_SUPER != 0 {
        extend_str(out, "SUPER + ");
    }
    let ghost o1 = out@;
    if mask & MOD_CTRL != 0 {
        extend_str(out, "CTRL + ");
    }
    let ghost o2 = out@;
    if mask & MOD_ALT != 0 {
        extend_str(out, "ALT + ");
    }
    let ghost o3 = out@;
    if mask & MOD_SHIFT != 0 {
        extend_str(out, "SHIFT + ");
    }
    assert(out@ =~= o + mods_text(mask));
}

fn code_key(keycode: u32) -> (r: Vec<char>)
    ensures
        r@ == "code:"@ + dec(keycode as nat),
{
    let mut v: Vec<char> = Vec::new();
    extend_str(&mut v, "code:");
    let d = dec_exec(keycode as u64);
    extend_chars(&mut v, d.as_slice());
    v
}

impl LiveBind {
    /// `SUPER + CTRL + key`, the way a collision is reported.
    pub fn describe(&self) -> (r: String)
        ensures
            r@ == mods_text(self.modmask) + live_key(*self),
    {
        let mut v: Vec<char> = Vec::new();
        mods_exec(self.modmask, &mut v);
        if self.keycode > 0 {
            let k = code_key(self.keycode);
            extend_chars(&mut v, k.as_slice());
        } else {
            extend_str(&mut v, self.key.as_str());
        }
        string_of(v.as_slice())
    }
}

/// The pieces of a combo between `+` signs, trimmed, empty ones dropped.
pub open spec fn nonempty_trimmed(ps: Seq<Seq<char>>) -> Seq<Seq<char>>
    decreases ps.len(),
{
    if ps.len() == 0 {
        Seq::empty()
    } else {
        let r = nonempty_trimmed(ps.drop_last());
        let t = trim(ps.last());
        if t.len() == 0 {
            r
        } else {
            r.push(t)
        }
    }
}

pub open spec fn combo_tokens(input: Seq<char>) -> Seq<Seq<char>> {
    nonempty_trimmed(split_char(input, '+'))
}

/// The modifier bit a token names (0 for a key token).
pub open spec fn mod_bit(u: Seq<char>) -> u32 {
    if u == "SUPER"@ || u == "MOD"@ {
        64
    } else if u == "CTRL"@ || u == "CONTROL"@ {
        4
    } else if u == "ALT"@ {
        8
    } else if u == "SHIFT"@ {
        1
    } else {
        0
    }
}

/// Modmask and key token so far; `None` once a second key token shows up.
pub open spec fn combo_state(toks: Seq<Seq<char>>) -> Option<(u32, Option<Seq<char>>)>
    decreases toks.len(),
{
    if toks.len() == 0 {
        Some((0u32, None))
    } else {
        match combo_state(toks.drop_last()) {
            None => None,
            Some(st) => {
                let b = mod_bit(upper(toks.last()));
                if b != 0 {
                    Some((st.0 | b, st.1))
                } else if st.1 is None {
                    Some((st.0, Some(toks.last())))
                } else {
                    None
                }
            },
        }
    }
}

/// `code:N` keeps its case; any other key compares case-insensitively.
pub open spec fn normalize_key_spec(k: Seq<char>) -> Seq<char> {
    if starts_with(k, "code:"@) {
        k
    } else {
        upper(k)
    }
}

/// The combo an input spells, when it spells exactly one key.
pub open spec fn combo_of(input: Seq<char>) -> Option<(u32, Seq<char>)> {
    match combo_state(combo_tokens(input)) {
        Some(st) => match st.1 {
            Some(k) => Some((st.0, normalize_key_spec(k))),
            None => None,
        },
        None => None,
    }
}

/// Why a combo was refused; each carries the input.
#[derive(Debug, Clone, PartialEq)]
pub enum ComboError {
    MoreThanOneKey(String),
    NoKey(String),
}

impl ComboError {
    pub fn message(&self) -> (r: String)
        ensures
            r@ == match self {
                ComboError::MoreThanOneKey(s) => "combo "@ + debug_quoted(s@) + ": more than one key token"@,
                ComboError::NoKey(s) => "combo "@ + debug_quoted(s@) + ": no key"@,
            },
    {
        let mut v: Vec<char> = Vec::new();
        extend_str(&mut v, "combo ");
        match self {
            ComboError::MoreThanOneKey(s) => {
                let q = debug_str(s.as_str());
                extend_str(&mut v, q.as_str());
                extend_str(&mut v, ": more than one key token");
            },
            ComboError::NoKey(s) => {
                let q = debug_str(s.as_str());
                extend_str(&mut v, q.as_str());
                extend_str(&mut v, ": no key");
            },
        }
        string_of(v.as_slice())
    }
}

fn mod_bit_exec(u: &[char]) -> (r: u32)
    ensures
        r == mod_bit(u@),
{
    if eq_str(u, "SUPER") || eq_str(u, "MOD") {
        MOD_SUPER
    } else if eq_str(u, "CTRL") || eq_str(u, "CONTROL") {
        MOD_CTRL
    } else if eq_str(u, "ALT") {
        MOD_ALT
    } else if eq_str(u, "SHIFT") {
        MOD_SHIFT
    } else {
        0
    }
}

fn normalize_key(key: &[char]) -> (r: String)
    ensures
        r@ == normalize_key_spec(key@),
{
    if starts_with_str(key, "code:") {
        string_of(key)
    } else {
        let u = upper_exec(key);
        string_of(u.as_slice())
    }
}

/// Parse an upstream-style combo ("SUPER + CTRL + E", "XF86AudioPlay",
/// "SUPER + SHIFT + code:201"): unknown non-modifier tokens become the key,
/// and exactly one key token is required.
pub fn parse_combo(input: &str) -> (r: Result<Combo, ComboError>)
    ensures
        match r {
            Ok(c) => combo_of(input@) == Some(c@),
            Err(ComboError::MoreThanOneKey(s)) => s@ == input@ && combo_state(combo_tokens(input@)) is None,
            Err(ComboError::NoKey(s)) => s@ == input@ && (combo_state(combo_tokens(input@)) matches Some(st) && st.1 is None),
        },
{
    let s = chars_of(input);
    let pieces = split_char_exec(s.as_slice(), '+');
    let mut mask: u32 = 0;
    let mut key: Option<Vec<char>> = None;
    let mut i: usize = 0;
    assert(vviews(pieces@).take(0) =~= Seq::<Seq<char>>::empty());
    while i < pieces.len()
        invariant
            i <= pieces.len(),
            vviews(pieces@) == split_char(input@, '+'),
            combo_state(nonempty_trimmed(vviews(pieces@).take(i as int))) == Some(
                (
                    mask,
                    match key {
                        Some(k) => Some(k@),
                        None => None,
                    },
                ),
            ),
        decreases pieces.len() - i,
    {
        let ghost pre = vviews(pieces@).take(i as int);
        assert(vviews(pieces@).take(i + 1).drop_last() == pre);
        assert(vviews(pieces@).take(i + 1).last() == pieces@[i as int]@);
        let t = trim_exec(pieces[i].as_slice());
        let ghost r = nonempty_trimmed(pre);
        assert(nonempty_trimmed(vviews(pieces@).take(i + 1)) == if t@.len() == 0 {
            r
        } else {
            r.push(t@)
        });
        assert(r.push(t@).drop_last() == r);
        assert(r.push(t@).last() == t@);
        if t.len() > 0 {
            let u = upper_exec(t.as_slice());
            let b = mod_bit_exec(u.as_slice());
            if b != 0 {
                mask = mask | b;
            } else if key.is_none() {
                key = Some(t);
            } else {
                assert(combo_state(nonempty_trimmed(vviews(pieces@).take(i + 1))) is None);
                proof {
                    lemma_combo_state_none(vviews(pieces@), i as int + 1);
                }
                assert(vviews(pieces@).take(pieces.len() as int) == vviews(pieces@));
                return Err(ComboError::MoreThanOneKey(input.to_owned()));
            }
        }
        i += 1;
    }
    assert(vviews(pieces@).take(pieces.len() as int) == vviews(pieces@));
    match key {
        Some(k) => {
            let nk = normalize_key(k.as_slice());
            Ok(Combo { modmask: mask, key: nk })
        },
        None => Err(ComboError::NoKey(input.to_owned())),
    }
}

/// Once the state is lost it stays lost.
proof fn lemma_combo_state_none(ps: Seq<Seq<char>>, i: int)
    requires
        0 <= i <= ps.len(),
        combo_state(nonempty_trimmed(ps.take(i))) is None,
    ensures
        combo_state(nonempty_trimmed(ps)) is None,
    decreases ps.len() - i,
{
    if i < ps.len() {
        assert(ps.take(i + 1).drop_last() == ps.take(i));
        let r = nonempty_trimmed(ps.take(i));
        let t = trim(ps.take(i + 1).last());
        assert(r.push(t).drop_last() == r);
        lemma_combo_state_none(ps, i + 1);
    } else {
        assert(ps.take(i) == ps);
    }
}

/// `SUPER + CTRL + key`: the modifiers in fixed order, then the key.
pub open spec fn combo_text(c: (u32, Seq<char>)) -> Seq<char> {
    mods_text(c.0) + c.1
}

/// Does a live bind occupy this combo? Keycode binds compare as `code:N`;
/// keysyms compare case-insensitively.
pub open spec fn combo_matches(c: (u32, Seq<char>), b: LiveBind) -> bool {
    if b.keycode > 0 {
        c.0 == b.modmask && c.1 == "code:"@ + dec(b.keycode as nat)
    } else {
        c.0 == b.modmask && c.1 == upper(b.key@)
    }
}

impl Combo {
    pub fn to_lua_string(&self) -> (r: String)
        ensures
            r@ == combo_text(self@),
    {
        let mut v: Vec<char> = Vec::new();
        mods_exec(self.modmask, &mut v);
        extend_str(&mut v, self.key.as_str());
        string_of(v.as_slice())
    }

    pub fn matches_live(&self, b: &LiveBind) -> (r: bool)
        ensures
            r == combo_matches(self@, *b),
    {
        let k = chars_of(self.key.as_str());
        if b.keycode > 0 {
            let code = code_key(b.keycode);
            return self.modmask == b.modmask && seq_eq(k.as_slice(), code.as_slice());
        }
        let bk = chars_of(b.key.as_str());
        let u = upper_exec(bk.as_slice());
        self.modmask == b.modmask && seq_eq(k.as_slice(), u.as_slice())
    }

    /// Same modmask and key.
    pub fn same_as(&self, other: &Combo) -> (r: bool)
        ensures
            r == (self@ == other@),
    {
        let a = chars_of(self.key.as_str());
        let b = chars_of(other.key.as_str());
        self.modmask == other.modmask && seq_eq(a.as_slice(), b.as_slice())
    }
}

pub open spec fn opt_combo(e: Option<&Combo>) -> Option<(u32, Seq<char>)> {
    match e {
        Some(c) => Some(c@),
        None => None,
    }
}

/// Does live bind `b` collide with `combo` (and not with the exempt combo)?
pub open spec fn collides(combo: (u32, Seq<char>), b: LiveBind, exempt: Option<(u32, Seq<char>)>) -> bool {
    combo_matches(combo, b) && !(exempt matches Some(e) && combo_matches(e, b))
}

/// The description of the first live bind colliding with `combo`.
pub open spec fn first_collision(live: Seq<LiveBind>, combo: (u32, Seq<char>), exempt: Option<(u32, Seq<char>)>) -> Option<Seq<char>>
    decreases live.len(),
{
    if live.len() == 0 {
        None
    } else if collides(combo, live[0], exempt) {
        Some(mods_text(live[0].modmask) + live_key(live[0]))
    } else {
        first_collision(live.skip(1), combo, exempt)
    }
}

/// The first live bind colliding with `combo`, ignoring binds of the exempt
/// combo (the action's own combo being replaced), described for humans.
pub fn collision_excluding(combo: &Combo, live: &[LiveBind], exempt: Option<&Combo>) -> (r: Option<String>)
    ensures
        match r {
            Some(s) => first_collision(live@, combo@, opt_combo(exempt)) == Some(s@),
            None => first_collision(live@, combo@, opt_combo(exempt)) is None,
        },
{
    let mut i: usize = 0;
    assert(live@.skip(0) =~= live@);
    while i < live.len()
        invariant
            i <= live.len(),
            first_collision(live@, combo@, opt_combo(exempt)) == first_collision(live@.skip(i as int), combo@, opt_combo(exempt)),
        decreases live.len() - i,
    {
        let b = &live[i];
        assert(live@.skip(i as int)[0] == *b);
        assert(live@.skip(i as int).skip(1) =~= live@.skip(i + 1));
        let hit = combo.matches_live(b) && !(match exempt {
            Some(e) => e.matches_live(b),
            None => false,
        });
        if hit {
            return Some(b.describe());
        }
        i += 1;
    }
    assert(live@.skip(live.len() as int) =~= Seq::<LiveBind>::empty());
    None
}


// --- upstream binding parser ---------------------------------------------------------

/// One parsed `o.bind("COMBO", "DESC", "CMD"[, opts])` line.
#[derive(Debug, Clone, PartialEq)]
pub struct UpstreamBind {
    pub combo: String,
    pub desc: String,
    pub cmd: String,
}

impl View for UpstreamBind {
    type V = (Seq<char>, Seq<char>, Seq<char>);

    open spec fn view(&self) -> (Seq<char>, Seq<char>, Seq<char>) {
        (self.combo@, self.desc@, self.cmd@)
    }
}

pub open spec fn binds_view(bs: Seq<UpstreamBind>) -> Seq<(Seq<char>, Seq<char>, Seq<char>)> {
    bs.map_values(|b: UpstreamBind| b@)
}

/// One leading `"…"` argument split off `s`: its content, and what follows
/// after the separating comma (no escapes: upstream's tables have none).
pub open spec fn split_quoted_spec(s: Seq<char>) -> Option<(Seq<char>, Seq<char>)> {
    let t = trim_start(s);
    if t.len() == 0 || t[0] != '"' {
        None
    } else {
        let rest = t.drop_first();
        match find_spec(rest, "\""@) {
            None => None,
            Some(e) => {
                let after = trim_start(rest.skip(e + 1));
                let after2 = if after.len() > 0 && after[0] == ',' {
                    after.drop_first()
                } else {
                    after
                };
                Some((rest.take(e), after2))
            },
        }
    }
}

fn split_quoted(s: &[char]) -> (r: Option<(Vec<char>, Vec<char>)>)
    ensures
        match r {
            Some(p) => split_quoted_spec(s@) == Some((p.0@, p.1@)),
            None => split_quoted_spec(s@) is None,
        },
{
    let t = trim_start_exec(s);
    if t.len() == 0 || t[0] != '"' {
        return None;
    }
    let rest = slice_vec(t.as_slice(), 1, t.len());
    assert(rest@ == t@.drop_first());
    let e = match find_str(rest.as_slice(), "\"") {
        Some(e) => e,
        None => {
            return None;
        },
    };
    proof {
        reveal_strlit("\"");
    }
    let content = slice_vec(rest.as_slice(), 0, e);
    let tail = slice_vec(rest.as_slice(), e + 1, rest.len());
    assert(tail@ == rest@.skip(e + 1));
    assert(content@ == rest@.take(e as int));
    let after = trim_start_exec(tail.as_slice());
    if after.len() > 0 && after[0] == ',' {
        let a2 = slice_vec(after.as_slice(), 1, after.len());
        assert(a2@ == after@.drop_first());
        Some((content, a2))
    } else {
        Some((content, after))
    }
}

/// The bind a line declares, when it is a single-line `o.bind(...)` call with
/// three string arguments, an optional options table, and a command free of
/// shell sequencing (`||`, `&&`, `;`).
pub open spec fn bind_of_line(line: Seq<char>) -> Option<(Seq<char>, Seq<char>, Seq<char>)> {
    let t = trim(line);
    if !starts_with(t, "o.bind("@) {
        None
    } else {
        let inner0 = t.skip("o.bind("@.len() as int);
        if !ends_with(inner0, ")"@) {
            None
        } else {
            let inner = inner0.drop_last();
            match split_quoted_spec(inner) {
                None => None,
                Some(p1) => match split_quoted_spec(p1.1) {
                    None => None,
                    Some(p2) => match split_quoted_spec(p2.1) {
                        None => None,
                        Some(p3) => {
                            let tt = trim(p3.1);
                            let tail_ok = tt.len() == 0 || (starts_with(tt, "{"@) && ends_with(tt, "}"@));
                            if !tail_ok || contains(p3.0, "||"@) || contains(p3.0, "&&"@) || contains(p3.0, ";"@) {
                                None
                            } else {
                                Some((p1.0, p2.0, p3.0))
                            }
                        },
                    },
                },
            }
        }
    }
}

pub open spec fn binds_of(ls: Seq<Seq<char>>) -> Seq<(Seq<char>, Seq<char>, Seq<char>)>
    decreases ls.len(),
{
    if ls.len() == 0 {
        Seq::empty()
    } else {
        let r = binds_of(ls.drop_last());
        match bind_of_line(ls.last()) {
            Some(b) => r.push(b),
            None => r,
        }
    }
}

fn bind_from_line(line: &[char]) -> (r: Option<UpstreamBind>)
    ensures
        match r {
            Some(b) => bind_of_line(line@) == Some(b@),
            None => bind_of_line(line@) is None,
        },
{
    let t = trim_exec(line);
    if !starts_with_str(t.as_slice(), "o.bind(") {
        return None;
    }
    let p = chars_of("o.bind(");
    let inner0 = slice_vec(t.as_slice(), p.len(), t.len());
    assert(inner0@ == t@.skip("o.bind("@.len() as int));
    if !crate::text::ends_with_str(inner0.as_slice(), ")") {
        return None;
    }
    proof {
        reveal_strlit(")");
    }
    let inner = slice_vec(inner0.as_slice(), 0, inner0.len() - 1);
    assert(inner@ == inner0@.drop_last());
    let (combo, r1) = match split_quoted(inner.as_slice()) {
        Some(x) => x,
        None => {
            return None;
        },
    };
    let (desc, r2) = match split_quoted(r1.as_slice()) {
        Some(x) => x,
        None => {
            return None;
        },
    };
    let (cmd, tail) = match split_quoted(r2.as_slice()) {
        Some(x) => x,
        None => {
            return None;
        },
    };
    let tt = trim_exec(tail.as_slice());
    let tail_ok = tt.len() == 0 || (starts_with_str(tt.as_slice(), "{")
        && crate::text::ends_with_str(tt.as_slice(), "}"));
    if !tail_ok || crate::text::contains_str(cmd.as_slice(), "||") || crate::text::contains_str(
        cmd.as_slice(),
        "&&",
    ) || crate::text::contains_str(cmd.as_slice(), ";") {
        return None;
    }
    Some(
        UpstreamBind {
            combo: string_of(combo.as_slice()),
            desc: string_of(desc.as_slice()),
            cmd: string_of(cmd.as_slice()),
        },
    )
}

/// Parse the single-line `o.bind(...)` calls with three string arguments.
/// Multiline calls, function dispatchers and compound commands carry no
/// static action and are skipped.
pub fn parse_binds(lua_src: &str) -> (r: Vec<UpstreamBind>)
    ensures
        binds_view(r@) == binds_of(lines(lua_src@)),
{
    let s = chars_of(lua_src);
    let ls = lines_exec(s.as_slice());
    let mut out: Vec<UpstreamBind> = Vec::new();
    let mut i: usize = 0;
    assert(vviews(ls@).take(0) =~= Seq::<Seq<char>>::empty());
    while i < ls.len()
        invariant
            i <= ls.len(),
            vviews(ls@) == lines(lua_src@),
            binds_view(out@) == binds_of(vviews(ls@).take(i as int)),
        decreases ls.len() - i,
    {
        assert(vviews(ls@).take(i + 1).drop_last() == vviews(ls@).take(i as int));
        assert(vviews(ls@).take(i + 1).last() == ls@[i as int]@);
        match bind_from_line(ls[i].as_slice()) {
            Some(b) => {
                let ghost before = binds_view(out@);
                out.push(b);
                assert(binds_view(out@) =~= before.push(out@.last()@));
            },
            None => {},
        }
        i += 1;
    }
    assert(vviews(ls@).take(ls.len() as int) == vviews(ls@));
    out
}

// --- action derivation -------------------------------------------------------------

/// A bindable shell action. `derived` marks entries inferred from a manifest
/// (no upstream bind exists); those have no suggested combo.
#[derive(Debug, Clone, PartialEq)]
pub struct Action {
    pub id: String,
    pub description: String,
    /// Component id used for enable-state gating.
    pub plugin: String,
    /// Full exec command (before the environment wrap).
    pub invocation: String,
    pub suggested_combo: Option<String>,
    pub derived: bool,
}

/// What an action says, as plain values.
pub struct ActionV {
    pub id: Seq<char>,
    pub description: Seq<char>,
    pub plugin: Seq<char>,
    pub invocation: Seq<char>,
    pub suggested: Option<Seq<char>>,
    pub derived: bool,
}

pub open spec fn opt_str(o: Option<String>) -> Option<Seq<char>> {
    match o {
        Some(s) => Some(s@),
        None => None,
    }
}

impl View for Action {
    type V = ActionV;

    open spec fn view(&self) -> ActionV {
        ActionV {
            id: self.id@,
            description: self.description@,
            plugin: self.plugin@,
            invocation: self.invocation@,
            suggested: opt_str(self.suggested_combo),
            derived: self.derived,
        }
    }
}

pub open spec fn actions_view(v: Seq<Action>) -> Seq<ActionV> {
    v.map_values(|a: Action| a@)
}

/// The first token at or after `j` that is not a `-flag`.
pub open spec fn first_non_flag(tk: Seq<Seq<char>>, j: int) -> int
    decreases tk.len() - j,
{
    if j >= tk.len() || j < 0 {
        j
    } else if starts_with(tk[j], "-"@) {
        first_non_flag(tk, j + 1)
    } else {
        j
    }
}

pub open spec fn upstream_action(id: Seq<char>, desc: Seq<char>, plugin: Seq<char>, cmd: Seq<char>, combo: Seq<char>) -> ActionV {
    ActionV { id, description: desc, plugin, invocation: cmd, suggested: Some(combo), derived: false }
}

/// Only plugin interactions belong in the catalog: `omarchy-shell shell
/// toggle <component>`, `omarchy-shell notifications|media <method>` and
/// `omarchy-menu toggle [name]`; window-manager and app binds stay Hyprland's.
pub open spec fn action_spec(combo: Seq<char>, desc: Seq<char>, cmd: Seq<char>) -> Option<ActionV> {
    let tk = ws_tokens(cmd);
    if tk.len() == 0 {
        None
    } else if tk[0] == "omarchy-shell"@ {
        let j = first_non_flag(tk, 1);
        if j >= tk.len() {
            None
        } else if tk[j] == "shell"@ {
            if j + 2 < tk.len() && tk[j + 1] == "toggle"@ {
                Some(upstream_action(tk[j + 2] + ":toggle"@, desc, tk[j + 2], cmd, combo))
            } else {
                None
            }
        } else if tk[j] == "notifications"@ || tk[j] == "media"@ {
            if j + 1 < tk.len() {
                Some(upstream_action(tk[j] + ":"@ + tk[j + 1], desc, "omarchy."@ + tk[j], cmd, combo))
            } else {
                None
            }
        } else {
            None
        }
    } else if tk[0] == "omarchy-menu"@ {
        if tk.len() < 2 || tk[1] != "toggle"@ {
            None
        } else {
            Some(
                upstream_action(
                    if tk.len() > 2 {
                        "menu:"@ + tk[2]
                    } else {
                        "menu"@
                    },
                    desc,
                    "omarchy.menu"@,
                    cmd,
                    combo,
                ),
            )
        }
    } else {
        None
    }
}

fn concat2(a: &[char], b: &str) -> (r: String)
    ensures
        r@ == a@ + b@,
{
    let mut v: Vec<char> = Vec::new();
    extend_chars(&mut v, a);
    extend_str(&mut v, b);
    string_of(v.as_slice())
}

fn prefixed(a: &str, b: &[char]) -> (r: String)
    ensures
        r@ == a@ + b@,
{
    let mut v: Vec<char> = Vec::new();
    extend_str(&mut v, a);
    extend_chars(&mut v, b);
    string_of(v.as_slice())
}

fn action_from_cmd(combo: &str, desc: &str, cmd: &str) -> (r: Option<Action>)
    ensures
        match r {
            Some(a) => action_spec(combo@, desc@, cmd@) == Some(a@),
            None => action_spec(combo@, desc@, cmd@) is None,
        },
{
    let c = chars_of(cmd);
    let tk = ws_tokens_exec(c.as_slice());
    assert(vviews(tk@).len() == tk.len());
    if tk.len() == 0 {
        return None;
    }
    assert(vviews(tk@)[0] == tk@[0]@);
    if eq_str(tk[0].as_slice(), "omarchy-shell") {
        let mut j: usize = 1;
        while j < tk.len() && starts_with_str(tk[j].as_slice(), "-")
            invariant
                1 <= j <= tk.len(),
                vviews(tk@) == ws_tokens(cmd@),
                first_non_flag(vviews(tk@), 1) == first_non_flag(vviews(tk@), j as int),
            decreases tk.len() - j,
        {
            assert(vviews(tk@)[j as int] == tk@[j as int]@);
            j += 1;
        }
        if j >= tk.len() {
            return None;
        }
        assert(vviews(tk@)[j as int] == tk@[j as int]@);
        if eq_str(tk[j].as_slice(), "shell") {
            if tk.len() - j > 2 && eq_str(tk[j + 1].as_slice(), "toggle") {
                assert(vviews(tk@)[j + 1] == tk@[j + 1]@);
                assert(vviews(tk@)[j + 2] == tk@[j + 2]@);
                let comp = &tk[j + 2];
                return Some(
                    Action {
                        id: concat2(comp.as_slice(), ":toggle"),
                        description: desc.to_owned(),
                        plugin: string_of(comp.as_slice()),
                        invocation: cmd.to_owned(),
                        suggested_combo: Some(combo.to_owned()),
                        derived: false,
                    },
                );
            }
            proof {
                if tk.len() - j > 2 {
                    assert(vviews(tk@)[j + 1] == tk@[j + 1]@);
                }
            }
            return None;
        }
        if eq_str(tk[j].as_slice(), "notifications") || eq_str(tk[j].as_slice(), "media") {
            if tk.len() - j > 1 {
                assert(vviews(tk@)[j + 1] == tk@[j + 1]@);
                let mut idv: Vec<char> = Vec::new();
                extend_chars(&mut idv, tk[j].as_slice());
                idv.push(':');
                extend_chars(&mut idv, tk[j + 1].as_slice());
                proof {
                    reveal_strlit(":");
                }
                assert(idv@ =~= tk@[j as int]@ + ":"@ + tk@[j + 1]@);
                return Some(
                    Action {
                        id: string_of(idv.as_slice()),
                        description: desc.to_owned(),
                        plugin: prefixed("omarchy.", tk[j].as_slice()),
                        invocation: cmd.to_owned(),
                        suggested_combo: Some(combo.to_owned()),
                        derived: false,
                    },
                );
            }
            return None;
        }
        return None;
    }
    if eq_str(tk[0].as_slice(), "omarchy-menu") {
        if tk.len() < 2 {
            return None;
        }
        assert(vviews(tk@)[1] == tk@[1]@);
        if !eq_str(tk[1].as_slice(), "toggle") {
            return None;
        }
        let id = if tk.len() > 2 {
            assert(vviews(tk@)[2] == tk@[2]@);
            prefixed("menu:", tk[2].as_slice())
        } else {
            "menu".to_owned()
        };
        return Some(
            Action {
                id,
                description: desc.to_owned(),
                plugin: "omarchy.menu".to_owned(),
                invocation: cmd.to_owned(),
                suggested_combo: Some(combo.to_owned()),
                derived: false,
            },
        );
    }
    None
}

/// Is some action already using this id?
pub open spec fn has_action_id(r: Seq<ActionV>, id: Seq<char>) -> bool {
    exists|k: int| 0 <= k < r.len() && r[k].id == id
}

/// The actions of a bind list, first occurrence of an id winning (upstream
/// sometimes binds one action under two combos).
pub open spec fn actions_spec(bs: Seq<(Seq<char>, Seq<char>, Seq<char>)>) -> Seq<ActionV>
    decreases bs.len(),
{
    if bs.len() == 0 {
        Seq::empty()
    } else {
        let r = actions_spec(bs.drop_last());
        let b = bs.last();
        match action_spec(b.0, b.1, b.2) {
            Some(a) => if has_action_id(r, a.id) {
                r
            } else {
                r.push(a)
            },
            None => r,
        }
    }
}

/// Bind list to deduplicated shell-facing actions.
pub fn actions_from_binds(binds: &[UpstreamBind]) -> (r: Vec<Action>)
    ensures
        actions_view(r@) == actions_spec(binds_view(binds@)),
{
    let mut out: Vec<Action> = Vec::new();
    let mut i: usize = 0;
    assert(binds_view(binds@).take(0) =~= Seq::<(Seq<char>, Seq<char>, Seq<char>)>::empty());
    while i < binds.len()
        invariant
            i <= binds.len(),
            actions_view(out@) == actions_spec(binds_view(binds@).take(i as int)),
        decreases binds.len() - i,
    {
        let b = &binds[i];
        assert(binds_view(binds@).take(i + 1).drop_last() == binds_view(binds@).take(i as int));
        assert(binds_view(binds@).take(i + 1).last() == b@);
        match action_from_cmd(b.combo.as_str(), b.desc.as_str(), b.cmd.as_str()) {
            Some(a) => {
                let aid = chars_of(a.id.as_str());
                let mut seen = false;
                let mut k: usize = 0;
                while k < out.len()
                    invariant
                        k <= out.len(),
                        aid@ == a.id@,
                        seen == exists|m: int| 0 <= m < k && out@[m].id@ == aid@,
                    decreases out.len() - k,
                {
                    let oc = chars_of(out[k].id.as_str());
                    if seq_eq(oc.as_slice(), aid.as_slice()) {
                        seen = true;
                    }
                    k += 1;
                }
                proof {
                    let r = actions_view(out@);
                    if has_action_id(r, a.id@) {
                        let m = choose|m: int| 0 <= m < r.len() && r[m].id == a.id@;
                        assert(out@[m].id@ == aid@);
                    }
                    if seen {
                        let m = choose|m: int| 0 <= m < out.len() && out@[m].id@ == aid@;
                        assert(r[m].id == a.id@);
                    }
                }
                if !seen {
                    let ghost before = actions_view(out@);
                    out.push(a);
                    assert(actions_view(out@) =~= before.push(out@.last()@));
                }
            },
            None => {},
        }
        i += 1;
    }
    assert(binds_view(binds@).take(binds.len() as int) == binds_view(binds@));
    out
}

/// A component's short label: `omarchy.tailscale` → `tailscale`.
pub open spec fn short_name_spec(id: Seq<char>) -> Seq<char> {
    split_char(id, '.').last()
}

pub fn short_name(id: &str) -> (r: String)
    ensures
        r@ == short_name_spec(id@),
{
    let c = chars_of(id);
    let ps = split_char_exec(c.as_slice(), '.');
    proof {
        crate::text::lemma_split_nonempty(id@, '.');
    }
    assert(vviews(ps@).len() == ps.len());
    let last = &ps[ps.len() - 1];
    assert(vviews(ps@).last() == last@);
    string_of(last.as_slice())
}

// --- bind-state resolver -------------------------------------------------------------

/// The combos opb-marked keys.lua entries bind, in file order (a later entry
/// for the same action overrides an earlier one).
#[derive(Debug)]
pub struct BoundCombos {
    entries: Vec<(String, Combo)>,
}

pub open spec fn bound_lookup(es: Seq<(Seq<char>, (u32, Seq<char>))>, id: Seq<char>) -> Option<(u32, Seq<char>)>
    decreases es.len(),
{
    if es.len() == 0 {
        None
    } else if es.last().0 == id {
        Some(es.last().1)
    } else {
        bound_lookup(es.drop_last(), id)
    }
}

impl View for BoundCombos {
    type V = Seq<(Seq<char>, (u32, Seq<char>))>;

    closed spec fn view(&self) -> Seq<(Seq<char>, (u32, Seq<char>))> {
        self.entries@.map_values(|e: (String, Combo)| (e.0@, e.1@))
    }
}

impl BoundCombos {
    /// The combo the action is bound to, if any.
    pub fn get(&self, id: &str) -> (r: Option<&Combo>)
        ensures
            match r {
                Some(c) => bound_lookup(self@, id@) == Some(c@),
                None => bound_lookup(self@, id@) is None,
            },
    {
        let idc = chars_of(id);
        let mut i = self.entries.len();
        let ghost es = self@;
        assert(es.take(es.len() as int) =~= es);
        while i > 0
            invariant
                i <= self.entries.len(),
                idc@ == id@,
                es == self@,
                es.len() == self.entries.len(),
                bound_lookup(es, id@) == bound_lookup(es.take(i as int), id@),
            decreases i,
        {
            let e = &self.entries[i - 1];
            let ec = chars_of(e.0.as_str());
            assert(es[i - 1] == (e.0@, e.1@));
            let ghost t = es.take(i as int);
            assert(t.last() == (e.0@, e.1@));
            assert(t.drop_last() == es.take(i - 1));
            if seq_eq(ec.as_slice(), idc.as_slice()) {
                return Some(&e.1);
            }
            i -= 1;
        }
        None
    }

    pub fn contains_key(&self, id: &str) -> (r: bool)
        ensures
            r == bound_lookup(self@, id@) is Some,
    {
        self.get(id).is_some()
    }

    pub fn is_empty(&self) -> (r: bool)
        ensures
            r == (self@.len() == 0),
    {
        self.entries.len() == 0
    }

    /// Every (action id, combo) pair, in the order `bound_combos` keeps.
    pub fn pairs(&self) -> (r: &[(String, Combo)])
        ensures
            r@.map_values(|e: (String, Combo)| (e.0@, e.1@)) == self@,
    {
        self.entries.as_slice()
    }
}

/// The action id of an opb marker comment: `-- opb: <id> | <desc>`.
pub open spec fn marker_id_spec(t: Seq<char>) -> Option<Seq<char>> {
    if starts_with(t, "-- opb: "@) {
        let rest = t.skip("-- opb: "@.len() as int);
        match find_spec(rest, " |"@) {
            Some(e) => Some(rest.take(e)),
            None => None,
        }
    } else {
        None
    }
}

fn marker_id(t: &[char]) -> (r: Option<Vec<char>>)
    ensures
        match r {
            Some(v) => marker_id_spec(t@) == Some(v@),
            None => marker_id_spec(t@) is None,
        },
{
    if !starts_with_str(t, "-- opb: ") {
        return None;
    }
    let p = chars_of("-- opb: ");
    let rest = slice_vec(t, p.len(), t.len());
    assert(rest@ == t@.skip("-- opb: "@.len() as int));
    match find_str(rest.as_slice(), " |") {
        Some(e) => Some(slice_vec(rest.as_slice(), 0, e)),
        None => None,
    }
}

/// The unquoted first argument of an `hl.bind(` line.
pub open spec fn hl_bind_arg(t: Seq<char>) -> Option<Seq<char>> {
    let inner = t.skip("hl.bind("@.len() as int);
    unquote(trim(split_char(inner, ',')[0]))
}

fn hl_bind_arg_exec(t: &[char]) -> (r: Option<Vec<char>>)
    requires
        starts_with(t@, "hl.bind("@),
    ensures
        match r {
            Some(v) => hl_bind_arg(t@) == Some(v@),
            None => hl_bind_arg(t@) is None,
        },
{
    let p = chars_of("hl.bind(");
    let inner = slice_vec(t, p.len(), t.len());
    let parts = split_char_exec(inner.as_slice(), ',');
    proof {
        crate::text::lemma_split_nonempty(inner@, ',');
    }
    assert(vviews(parts@)[0] == parts@[0]@);
    let first = trim_exec(parts[0].as_slice());
    unquote_exec(first.as_slice())
}

/// keys.lua read line by line: the bound combos so far and the marker
/// waiting for its `hl.bind` line.
pub open spec fn bound_step(
    st: (Seq<(Seq<char>, (u32, Seq<char>))>, Option<Seq<char>>),
    line: Seq<char>,
) -> (Seq<(Seq<char>, (u32, Seq<char>))>, Option<Seq<char>>) {
    let t = trim(line);
    match marker_id_spec(t) {
        Some(id) => (st.0, Some(id)),
        None => if starts_with(t, "hl.bind("@) {
            match hl_bind_arg(t) {
                None => (st.0, None),
                Some(u) => match st.1 {
                    Some(id) => match combo_of(u) {
                        Some(c) => (st.0.push((id, c)), None),
                        None => (st.0, None),
                    },
                    None => (st.0, None),
                },
            }
        } else {
            st
        },
    }
}

pub open spec fn bound_fold(ls: Seq<Seq<char>>) -> (Seq<(Seq<char>, (u32, Seq<char>))>, Option<Seq<char>>)
    decreases ls.len(),
{
    if ls.len() == 0 {
        (Seq::empty(), None)
    } else {
        bound_step(bound_fold(ls.drop_last()), ls.last())
    }
}

pub open spec fn bound_combos_spec(keys_src: Seq<char>) -> Seq<(Seq<char>, (u32, Seq<char>))> {
    bound_fold(lines(keys_src)).0
}

/// The combo each action is bound to, from opb-marked keys.lua entries (a
/// `-- opb: <id> |` marker and the `hl.bind` line after it). Foreign binds
/// are invisible: opb only reasons about what it wrote.
pub fn bound_combos(keys_lua_src: &str) -> (r: BoundCombos)
    ensures
        r@ == bound_combos_spec(keys_lua_src@),
{
    let s = chars_of(keys_lua_src);
    let ls = lines_exec(s.as_slice());
    let mut es: Vec<(String, Combo)> = Vec::new();
    let mut cur: Option<Vec<char>> = None;
    let mut i: usize = 0;
    assert(vviews(ls@).take(0) =~= Seq::<Seq<char>>::empty());
    while i < ls.len()
        invariant
            i <= ls.len(),
            vviews(ls@) == lines(keys_lua_src@),
            bound_fold(vviews(ls@).take(i as int)) == (
                es@.map_values(|e: (String, Combo)| (e.0@, e.1@)),
                match cur {
                    Some(c) => Some(c@),
                    None => None,
                },
            ),
        decreases ls.len() - i,
    {
        assert(vviews(ls@).take(i + 1).drop_last() == vviews(ls@).take(i as int));
        assert(vviews(ls@).take(i + 1).last() == ls@[i as int]@);
        let t = trim_exec(ls[i].as_slice());
        match marker_id(t.as_slice()) {
            Some(id) => {
                cur = Some(id);
            },
            None => {
                if starts_with_str(t.as_slice(), "hl.bind(") {
                    match hl_bind_arg_exec(t.as_slice()) {
                        None => {
                            cur = None;
                        },
                        Some(u) => {
                            match cur {
                                Some(id) => {
                                    let us = string_of(u.as_slice());
                                    match parse_combo(us.as_str()) {
                                        Ok(c) => {
                                            let ghost before = es@.map_values(|e: (String, Combo)| (e.0@, e.1@));
                                            es.push((string_of(id.as_slice()), c));
                                            assert(es@.map_values(|e: (String, Combo)| (e.0@, e.1@)) =~= before.push(
                                                (id@, es@.last().1@),
                                            ));
                                        },
                                        Err(_) => {},
                                    }
                                },
                                None => {},
                            }
                            cur = None;
                        },
                    }
                }
            },
        }
        i += 1;
    }
    assert(vviews(ls@).take(ls.len() as int) == vviews(ls@));
    let r = BoundCombos { entries: es };
    assert(r@ == es@.map_values(|e: (String, Combo)| (e.0@, e.1@)));
    r
}

/// Bind status of one action, resolved from keys.lua against upstream's
/// suggested combo.
#[derive(Debug, Clone, Copy, PartialEq, Eq, Structural)]
pub enum BindState {
    /// No opb-managed bind in keys.lua.
    Unbound,
    /// Bound to exactly the upstream-suggested combo.
    Suggested,
    /// Bound to a combo that differs from the suggestion.
    Customized,
}

pub open spec fn bind_state_spec(a: ActionV, bound: Option<(u32, Seq<char>)>) -> BindState {
    match bound {
        None => BindState::Unbound,
        Some(c) => match a.suggested {
            Some(s) => if combo_of(s) == Some(c) {
                BindState::Suggested
            } else {
                BindState::Customized
            },
            None => BindState::Customized,
        },
    }
}

/// Classify one action's bind status.
pub fn bind_state(action: &Action, bound: Option<&Combo>) -> (r: BindState)
    ensures
        r == bind_state_spec(action@, opt_combo(bound)),
{
    match bound {
        None => BindState::Unbound,
        Some(combo) => match &action.suggested_combo {
            Some(s) => match parse_combo(s.as_str()) {
                Ok(sc) => if sc.same_as(combo) {
                    BindState::Suggested
                } else {
                    BindState::Customized
                },
                Err(_) => BindState::Customized,
            },
            None => BindState::Customized,
        },
    }
}

/// The combo shown for an action: its bind, else the suggestion, else `-`.
pub open spec fn display_combo_spec(a: ActionV, bound: Option<(u32, Seq<char>)>) -> Seq<char> {
    match bound {
        Some(c) => combo_text(c),
        None => match a.suggested {
            Some(s) => s,
            None => "-"@,
        },
    }
}

fn display_combo(action: &Action, bound: Option<&Combo>) -> (r: String)
    ensures
        r@ == display_combo_spec(action@, opt_combo(bound)),
{
    match bound {
        Some(c) => c.to_lua_string(),
        None => match &action.suggested_combo {
            Some(s) => s.clone(),
            None => "-".to_owned(),
        },
    }
}

pub open spec fn bind_icon_spec(s: BindState) -> Seq<char> {
    match s {
        BindState::Unbound => "—"@,
        BindState::Suggested => "✓"@,
        BindState::Customized => "✎"@,
    }
}

fn bind_icon(state: BindState) -> (r: &'static str)
    ensures
        r@ == bind_icon_spec(state),
{
    match state {
        BindState::Unbound => "—",
        BindState::Suggested => "✓",
        BindState::Customized => "✎",
    }
}

// --- rendering ------------------------------------------------------------------------

/// One catalog row: an action plus the enable state of its component.
#[derive(Debug, Clone)]
pub struct Entry {
    pub action: Action,
    pub state: &'static str,
}

/// Is the entry's component switched off?
pub open spec fn entry_off(e: Entry) -> bool {
    e.state@ == "off"@
}

/// `s` cut to `w - 1` characters plus `…` when longer than `w`, else padded to `w`.
pub open spec fn truncate_pad_spec(s: Seq<char>, w: nat) -> Seq<char> {
    if s.len() > w {
        s.take(if w > 0 {
            w - 1
        } else {
            0
        }) + "…"@
    } else {
        crate::text::pad_right(s, w)
    }
}

fn truncate_pad(s: &[char], w: usize) -> (r: Vec<char>)
    ensures
        r@ == truncate_pad_spec(s@, w as nat),
{
    if s.len() > w {
        let n = if w > 0 {
            w - 1
        } else {
            0
        };
        let mut v = slice_vec(s, 0, n);
        extend_str(&mut v, "…");
        v
    } else {
        let mut v: Vec<char> = Vec::new();
        crate::text::push_padded(&mut v, s, w);
        v
    }
}

/// Is the entry shown under these filters? Off components only with `all`;
/// a plugin filter matches the component id or the action id.
pub open spec fn shown(e: Entry, all: bool, plugin: Option<Seq<char>>) -> bool {
    &&& (all || !entry_off(e))
    &&& !(plugin matches Some(p) && e.action.plugin@ != p && e.action.id@ != p)
}

/// The description column: the action's text and its markers.
pub open spec fn desc_spec(e: Entry) -> Seq<char> {
    e.action.description@ + (if e.action.derived {
        " [derived]"@
    } else {
        Seq::empty()
    }) + (if entry_off(e) {
        " [component off]"@
    } else {
        Seq::empty()
    })
}

pub open spec fn row_spec(e: Entry, bound: Option<(u32, Seq<char>)>, w: nat) -> Seq<char> {
    let st = bind_state_spec(e.action@, bound);
    crate::text::pad_right(bind_icon_spec(st), 4) + " "@ + crate::text::pad_right(e.action.id@, w) + "  "@
        + crate::text::pad_right(truncate_pad_spec(display_combo_spec(e.action@, bound), 14), 14) + "  "@
        + desc_spec(e) + "\n"@
}

pub open spec fn header_spec(w: nat) -> Seq<char> {
    crate::text::pad_right("BIND"@, 4) + " "@ + crate::text::pad_right("ACTION"@, w) + "  "@
        + crate::text::pad_right("COMBO"@, 14) + "  "@ + "DESCRIPTION"@ + "\n"@
}

/// The ACTION column width: the longest id in bytes (as `str::len`
/// counts), at least 5.
pub open spec fn id_width(es: Seq<Entry>) -> nat
    decreases es.len(),
{
    if es.len() == 0 {
        5
    } else {
        let w = id_width(es.drop_last());
        let n = crate::text::byte_len(es.last().action.id@);
        if n > w {
            n
        } else {
            w
        }
    }
}

pub open spec fn rows_spec(
    es: Seq<Entry>,
    bound: Seq<(Seq<char>, (u32, Seq<char>))>,
    all: bool,
    plugin: Option<Seq<char>>,
    w: nat,
) -> Seq<char>
    decreases es.len(),
{
    if es.len() == 0 {
        Seq::empty()
    } else {
        let e = es.last();
        rows_spec(es.drop_last(), bound, all, plugin, w) + if shown(e, all, plugin) {
            row_spec(e, bound_lookup(bound, e.action.id@), w)
        } else {
            Seq::empty()
        }
    }
}

/// The catalog table: header, then one row per shown entry.
pub open spec fn render_spec(es: Seq<Entry>, keys_src: Seq<char>, all: bool, plugin: Option<Seq<char>>) -> Seq<char> {
    let w = id_width(es);
    header_spec(w) + rows_spec(es, bound_combos_spec(keys_src), all, plugin, w)
}

fn render_row(out: &mut Vec<char>, e: &Entry, bound: Option<&Combo>, w: usize)
    ensures
        final(out)@ == old(out)@ + row_spec(*e, opt_combo(bound), w as nat),
{
    let st = bind_state(&e.action, bound);
    let combo = display_combo(&e.action, bound);
    let cc = chars_of(combo.as_str());
    let tp = truncate_pad(cc.as_slice(), 14);
    let icon = chars_of(bind_icon(st));
    let id = chars_of(e.action.id.as_str());
    let ghost o = out@;
    crate::text::push_padded(out, icon.as_slice(), 4);
    extend_str(out, " ");
    crate::text::push_padded(out, id.as_slice(), w);
    extend_str(out, "  ");
    crate::text::push_padded(out, tp.as_slice(), 14);
    extend_str(out, "  ");
    extend_str(out, e.action.description.as_str());
    let ghost o1 = out@;
    if e.action.derived {
        extend_str(out, " [derived]");
    }
    let ghost o2 = out@;
    let off = eq_str(chars_of(e.state).as_slice(), "off");
    if off {
        extend_str(out, " [component off]");
    }
    extend_str(out, "\n");
    assert(out@ =~= o + row_spec(*e, opt_combo(bound), w as nat));
}

/// Render the catalog: by default entries of disabled components are hidden
/// (`all` shows them); `plugin` narrows to a component id or an action id.
/// The BIND column is each action's state in keys.lua (— / ✓ / ✎).
pub fn render(entries: &[Entry], keys_lua_src: &str, all: bool, plugin: Option<&str>) -> (r: String)
    ensures
        r@ == render_spec(
            entries@,
            keys_lua_src@,
            all,
            match plugin {
                Some(p) => Some(p@),
                None => None,
            },
        ),
{
    let ghost pv = match plugin {
        Some(p) => Some(p@),
        None => None::<Seq<char>>,
    };
    let combos = bound_combos(keys_lua_src);
    let mut width: usize = 5;
    let mut i: usize = 0;
    assert(entries@.take(0) =~= Seq::<Entry>::empty());
    while i < entries.len()
        invariant
            i <= entries.len(),
            width == id_width(entries@.take(i as int)),
        decreases entries.len() - i,
    {
        assert(entries@.take(i + 1).drop_last() == entries@.take(i as int));
        let n = crate::text::byte_len_exec(entries[i].action.id.as_str());
        if n > width {
            width = n;
        }
        i += 1;
    }
    assert(entries@.take(entries.len() as int) == entries@);
    let mut out: Vec<char> = Vec::new();
    crate::text::push_padded(&mut out, chars_of("BIND").as_slice(), 4);
    extend_str(&mut out, " ");
    crate::text::push_padded(&mut out, chars_of("ACTION").as_slice(), width);
    extend_str(&mut out, "  ");
    crate::text::push_padded(&mut out, chars_of("COMBO").as_slice(), 14);
    extend_str(&mut out, "  ");
    extend_str(&mut out, "DESCRIPTION");
    extend_str(&mut out, "\n");
    assert(out@ =~= header_spec(width as nat));
    let ghost head = out@;
    let mut i: usize = 0;
    while i < entries.len()
        invariant
            i <= entries.len(),
            width == id_width(entries@),
            combos@ == bound_combos_spec(keys_lua_src@),
            pv == match plugin {
                Some(p) => Some(p@),
                None => None::<Seq<char>>,
            },
            out@ == head + rows_spec(entries@.take(i as int), combos@, all, pv, width as nat),
        decreases entries.len() - i,
    {
        let e = &entries[i];
        assert(entries@.take(i + 1).drop_last() == entries@.take(i as int));
        assert(entries@.take(i + 1).last() == *e);
        let off = eq_str(chars_of(e.state).as_slice(), "off");
        let filtered_out = match plugin {
            Some(p) => {
                let pc = chars_of(p);
                let plc = chars_of(e.action.plugin.as_str());
                let idc = chars_of(e.action.id.as_str());
                !seq_eq(plc.as_slice(), pc.as_slice()) && !seq_eq(idc.as_slice(), pc.as_slice())
            },
            None => false,
        };
        if (all || !off) && !filtered_out {
            let bound = combos.get(e.action.id.as_str());
            render_row(&mut out, e, bound, width);
        }
        i += 1;
    }
    assert(entries@.take(entries.len() as int) == entries@);
    string_of(out.as_slice())
}

/// Entries worth offering interactively: those of enabled components.
pub fn enabled_entries(entries: &[Entry]) -> (r: Vec<&Entry>)
    ensures
        r@.map_values(|e: &Entry| *e) == entries@.filter(|e: Entry| !entry_off(e)),
{
    let mut out: Vec<&Entry> = Vec::new();
    let mut i: usize = 0;
    proof {
        reveal(Seq::filter);
    }
    assert(entries@.take(0).filter(|e: Entry| !entry_off(e)) =~= Seq::<Entry>::empty());
    while i < entries.len()
        invariant
            i <= entries.len(),
            out@.map_values(|e: &Entry| *e) == entries@.take(i as int).filter(|e: Entry| !entry_off(e)),
        decreases entries.len() - i,
    {
        let e = &entries[i];
        assert(entries@.take(i + 1).drop_last() == entries@.take(i as int));
        let off = eq_str(chars_of(e.state).as_slice(), "off");
        let ghost before = out@.map_values(|e: &Entry| *e);
        proof {
            reveal(Seq::filter);
            assert(entries@.take(i + 1).last() == *e);
        }
        if !off {
            out.push(e);
        }
        assert(out@.map_values(|e: &Entry| *e) =~= entries@.take(i + 1).filter(|e: Entry| !entry_off(e)));
        i += 1;
    }
    assert(entries@.take(entries.len() as int) == entries@);
    out
}

// --- keys.lua writer ----------------------------------------------------------------

/// Backslashes and double quotes escaped for a Lua double-quoted string.
pub open spec fn lua_escape_spec(s: Seq<char>) -> Seq<char> {
    crate::text::replace_all(crate::text::replace_all(s, "\\"@, "\\\\"@), "\""@, "\\\""@)
}

fn lua_escape(s: &[char]) -> (r: Vec<char>)
    ensures
        r@ == lua_escape_spec(s@),
{
    proof {
        reveal_strlit("\\");
        reveal_strlit("\"");
    }
    let a = chars_of("\\");
    let b = chars_of("\\\\");
    let step = crate::text::replace_all_exec(s, a.as_slice(), b.as_slice());
    let c = chars_of("\"");
    let d = chars_of("\\\"");
    crate::text::replace_all_exec(step.as_slice(), c.as_slice(), d.as_slice())
}

/// The command of an entry: the env-wrapped exec in a Lua long-bracket
/// string (it holds both quote flavors), or an escaped quoted string should
/// the fragment ever contain `]]`.
pub open spec fn entry_cmd(pin_dir: Seq<char>, invocation: Seq<char>) -> Seq<char> {
    let inner = crate::env::shell_exports_spec(pin_dir) + " exec "@ + invocation;
    let cmd = "sh -c '"@ + inner + "'"@;
    if contains(cmd, "]]"@) {
        "\""@ + lua_escape_spec(cmd) + "\""@
    } else {
        "[["@ + cmd + "]]"@
    }
}

/// One keys.lua entry: the opb marker line and the native `hl.bind` call,
/// self-contained (the exec carries the pin environment).
pub open spec fn render_entry_spec(pin_dir: Seq<char>, a: ActionV, c: (u32, Seq<char>)) -> Seq<char> {
    "-- opb: "@ + a.id + " | "@ + lua_escape_spec(a.description) + "\nhl.bind(\""@ + combo_text(c)
        + "\", hl.dsp.exec_cmd("@ + entry_cmd(pin_dir, a.invocation) + "), { description = \""@
        + lua_escape_spec(a.description) + "\" })\n"@
}

pub fn render_entry(pin_dir: &str, action: &Action, combo: &Combo) -> (r: String)
    ensures
        r@ == render_entry_spec(pin_dir@, action@, combo@),
{
    let exports = crate::env::shell_exports(pin_dir);
    let mut cmd: Vec<char> = Vec::new();
    extend_str(&mut cmd, "sh -c '");
    extend_str(&mut cmd, exports.as_str());
    extend_str(&mut cmd, " exec ");
    extend_str(&mut cmd, action.invocation.as_str());
    extend_str(&mut cmd, "'");
    assert(cmd@ =~= "sh -c '"@ + (crate::env::shell_exports_spec(pin_dir@) + " exec "@ + action.invocation@)
        + "'"@);
    let mut quoted: Vec<char> = Vec::new();
    if crate::text::contains_str(cmd.as_slice(), "]]") {
        extend_str(&mut quoted, "\"");
        let esc = lua_escape(cmd.as_slice());
        extend_chars(&mut quoted, esc.as_slice());
        extend_str(&mut quoted, "\"");
    } else {
        extend_str(&mut quoted, "[[");
        extend_chars(&mut quoted, cmd.as_slice());
        extend_str(&mut quoted, "]]");
    }
    assert(quoted@ =~= entry_cmd(pin_dir@, action.invocation@));
    let desc = lua_escape(chars_of(action.description.as_str()).as_slice());
    let combo_s = combo.to_lua_string();
    let mut v: Vec<char> = Vec::new();
    extend_str(&mut v, "-- opb: ");
    extend_str(&mut v, action.id.as_str());
    extend_str(&mut v, " | ");
    extend_chars(&mut v, desc.as_slice());
    extend_str(&mut v, "\nhl.bind(\"");
    extend_str(&mut v, combo_s.as_str());
    extend_str(&mut v, "\", hl.dsp.exec_cmd(");
    extend_chars(&mut v, quoted.as_slice());
    extend_str(&mut v, "), { description = \"");
    extend_chars(&mut v, desc.as_slice());
    extend_str(&mut v, "\" })\n");
    assert(v@ =~= render_entry_spec(pin_dir@, action@, combo@));
    string_of(v.as_slice())
}

/// The header a fresh keys.lua starts with.
pub const KEYS_HEADER: &'static str = "-- opb keybinds (user-owned). Managed with `opb keys edit` / `opb keys set`;\n-- hand-edit freely. opb only ever edits its own `-- opb:`-marked entries.\n-- Loaded on `opb up` and at boot via ~/.config/hypr/opb.lua (require(\"opb\")).\n\n";

/// keys.lua with `entry` appended: the header first when the file is empty,
/// and a newline first when the file does not end in one.
pub open spec fn append_source_spec(src: Seq<char>, entry: Seq<char>) -> Seq<char> {
    if src.len() == 0 {
        KEYS_HEADER@ + entry
    } else if src.last() == '\n' {
        src + entry
    } else {
        src + "\n"@ + entry
    }
}

pub fn append_source(src: &str, entry: &str) -> (r: String)
    ensures
        r@ == append_source_spec(src@, entry@),
{
    let s = chars_of(src);
    let mut v: Vec<char> = Vec::new();
    if s.len() == 0 {
        extend_str(&mut v, KEYS_HEADER);
    } else if s[s.len() - 1] == '\n' {
        extend_chars(&mut v, s.as_slice());
    } else {
        extend_chars(&mut v, s.as_slice());
        extend_str(&mut v, "\n");
    }
    extend_str(&mut v, entry);
    string_of(v.as_slice())
}

/// The lines left after every block of `marker` (its marker line plus an
/// `hl.bind(` line right after it) is replaced by `rep`.
pub open spec fn rewrite_lines(ls: Seq<Seq<char>>, marker: Seq<char>, rep: Seq<Seq<char>>) -> Seq<Seq<char>>
    decreases ls.len(),
{
    if ls.len() == 0 {
        Seq::empty()
    } else if starts_with(trim_start(ls[0]), marker) {
        let rest = if ls.len() > 1 && starts_with(trim_start(ls[1]), "hl.bind("@) {
            ls.skip(2)
        } else {
            ls.skip(1)
        };
        rep + rewrite_lines(rest, marker, rep)
    } else {
        seq![ls[0]] + rewrite_lines(ls.skip(1), marker, rep)
    }
}

/// Lines joined with `\n`.
pub open spec fn join_lines(ls: Seq<Seq<char>>) -> Seq<char>
    decreases ls.len(),
{
    if ls.len() == 0 {
        Seq::empty()
    } else if ls.len() == 1 {
        ls[0]
    } else {
        join_lines(ls.drop_last()) + "\n"@ + ls.last()
    }
}

/// keys.lua with the block of `action_id` replaced by `replacement` (a full
/// rendered entry), or removed when it is empty; newline-terminated.
pub open spec fn rewrite_action_block_spec(src: Seq<char>, action_id: Seq<char>, replacement: Seq<char>) -> Seq<char> {
    let marker = "-- opb: "@ + action_id + " |"@;
    let rep = if replacement.len() == 0 {
        Seq::empty()
    } else {
        lines(replacement)
    };
    let s = join_lines(rewrite_lines(lines(src), marker, rep));
    if s.len() > 0 && s.last() != '\n' {
        s + "\n"@
    } else {
        s
    }
}

proof fn lemma_join_push(ls: Seq<Seq<char>>, x: Seq<char>)
    ensures
        join_lines(ls.push(x)) == if ls.len() == 0 {
            x
        } else {
            join_lines(ls) + "\n"@ + x
        },
{
    assert(ls.push(x).drop_last() == ls);
}

pub fn rewrite_action_block(src: &str, action_id: &str, replacement: &str) -> (r: String)
    ensures
        r@ == rewrite_action_block_spec(src@, action_id@, replacement@),
{
    let mut mk: Vec<char> = Vec::new();
    extend_str(&mut mk, "-- opb: ");
    extend_str(&mut mk, action_id);
    extend_str(&mut mk, " |");
    let ghost marker = mk@;
    let rc = chars_of(replacement);
    let rep: Vec<Vec<char>> = if rc.len() == 0 {
        Vec::new()
    } else {
        lines_exec(rc.as_slice())
    };
    let ghost repv = vviews(rep@);
    assert(repv == if replacement@.len() == 0 {
        Seq::<Seq<char>>::empty()
    } else {
        lines(replacement@)
    });
    let sc = chars_of(src);
    let ls = lines_exec(sc.as_slice());
    let ghost lv = vviews(ls@);
    let mut out: Vec<Vec<char>> = Vec::new();
    let mut i: usize = 0;
    assert(lv.skip(0) =~= lv);
    while i < ls.len()
        invariant
            i <= ls.len(),
            lv == vviews(ls@),
            repv == vviews(rep@),
            mk@ == marker,
            rewrite_lines(lv, marker, repv) == vviews(out@) + rewrite_lines(lv.skip(i as int), marker, repv),
        decreases ls.len() - i,
    {
        let ghost rest = lv.skip(i as int);
        assert(rest[0] == ls@[i as int]@);
        let t = trim_start_exec(ls[i].as_slice());
        if crate::text::starts_with_exec(t.as_slice(), mk.as_slice()) {
            let mut next = i + 1;
            if i + 1 < ls.len() {
                assert(rest[1] == ls@[i + 1]@);
                let t2 = trim_start_exec(ls[i + 1].as_slice());
                if starts_with_str(t2.as_slice(), "hl.bind(") {
                    next = i + 2;
                }
            }
            assert(rest.skip(next - i) =~= lv.skip(next as int));
            let ghost before = vviews(out@);
            let mut j: usize = 0;
            while j < rep.len()
                invariant
                    j <= rep.len(),
                    repv == vviews(rep@),
                    vviews(out@) == before + repv.take(j as int),
                decreases rep.len() - j,
            {
                let ghost o = vviews(out@);
                let x = slice_vec(rep[j].as_slice(), 0, rep[j].len());
                assert(x@ =~= rep@[j as int]@);
                assert(repv[j as int] == rep@[j as int]@);
                out.push(x);
                assert(vviews(out@) =~= o.push(repv[j as int]));
                assert(repv.take(j + 1) =~= repv.take(j as int).push(repv[j as int]));
                j += 1;
            }
            assert(repv.take(rep.len() as int) == repv);
            assert(vviews(out@) + rewrite_lines(lv.skip(next as int), marker, repv) =~= before + (repv
                + rewrite_lines(lv.skip(next as int), marker, repv)));
            i = next;
        } else {
            let ghost before = vviews(out@);
            let x = slice_vec(ls[i].as_slice(), 0, ls[i].len());
            assert(x@ =~= ls@[i as int]@);
            assert(lv[i as int] == ls@[i as int]@);
            out.push(x);
            assert(vviews(out@) =~= before.push(lv[i as int]));
            assert(rest.skip(1) =~= lv.skip(i + 1));
            assert(vviews(out@) + rewrite_lines(lv.skip(i + 1), marker, repv) =~= before + (seq![lv[i as int]]
                + rewrite_lines(lv.skip(i + 1), marker, repv)));
            i += 1;
        }
    }
    assert(lv.skip(ls.len() as int) =~= Seq::<Seq<char>>::empty());
    assert(vviews(out@) + Seq::<Seq<char>>::empty() =~= vviews(out@));
    let mut s: Vec<char> = Vec::new();
    let mut k: usize = 0;
    let ghost ov = vviews(out@);
    assert(ov.take(0) =~= Seq::<Seq<char>>::empty());
    while k < out.len()
        invariant
            k <= out.len(),
            ov == vviews(out@),
            s@ == join_lines(ov.take(k as int)),
        decreases out.len() - k,
    {
        proof {
            lemma_join_push(ov.take(k as int), ov[k as int]);
            assert(ov.take(k + 1) =~= ov.take(k as int).push(ov[k as int]));
        }
        if k > 0 {
            s.push('\n');
            proof {
                reveal_strlit("\n");
            }
        }
        extend_chars(&mut s, out[k].as_slice());
        assert(ov[k as int] == out@[k as int]@);
        k += 1;
    }
    assert(ov.take(out.len() as int) == ov);
    if s.len() > 0 && s[s.len() - 1] != '\n' {
        s.push('\n');
        proof {
            reveal_strlit("\n");
        }
    }
    string_of(s.as_slice())
}

/// The combo an `hl.bind(` line binds, as written (quotes stripped), when it
/// parses to `c`.
pub open spec fn line_conflict(line: Seq<char>, c: (u32, Seq<char>)) -> Option<Seq<char>> {
    let t = trim(line);
    if starts_with(t, "hl.bind("@) {
        match hl_bind_arg(t) {
            Some(u) => if combo_of(u) == Some(c) {
                Some(u)
            } else {
                None
            },
            None => None,
        }
    } else {
        None
    }
}

pub open spec fn first_conflict(ls: Seq<Seq<char>>, c: (u32, Seq<char>)) -> Option<Seq<char>>
    decreases ls.len(),
{
    if ls.len() == 0 {
        None
    } else {
        match line_conflict(ls[0], c) {
            Some(u) => Some(u),
            None => first_conflict(ls.skip(1), c),
        }
    }
}

/// Does an entry already written bind this same combo? The combo string as
/// written in the file.
pub fn existing_combo_conflict(keys_lua_src: &str, combo: &Combo) -> (r: Option<String>)
    ensures
        match r {
            Some(s) => first_conflict(lines(keys_lua_src@), combo@) == Some(s@),
            None => first_conflict(lines(keys_lua_src@), combo@) is None,
        },
{
    let sc = chars_of(keys_lua_src);
    let ls = lines_exec(sc.as_slice());
    let ghost lv = vviews(ls@);
    let mut i: usize = 0;
    assert(lv.skip(0) =~= lv);
    while i < ls.len()
        invariant
            i <= ls.len(),
            lv == vviews(ls@),
            lv == lines(keys_lua_src@),
            first_conflict(lv, combo@) == first_conflict(lv.skip(i as int), combo@),
        decreases ls.len() - i,
    {
        let ghost rest = lv.skip(i as int);
        assert(rest[0] == ls@[i as int]@);
        assert(rest.skip(1) =~= lv.skip(i + 1));
        let t = trim_exec(ls[i].as_slice());
        if starts_with_str(t.as_slice(), "hl.bind(") {
            match hl_bind_arg_exec(t.as_slice()) {
                Some(u) => {
                    let us = string_of(u.as_slice());
                    match parse_combo(us.as_str()) {
                        Ok(c) => {
                            if c.same_as(combo) {
                                assert(line_conflict(rest[0], combo@) == Some(u@));
                                assert(first_conflict(rest, combo@) == Some(u@));
                                return Some(us);
                            }
                        },
                        Err(_) => {},
                    }
                },
                None => {},
            }
        }
        i += 1;
    }
    assert(lv.skip(ls.len() as int) =~= Seq::<Seq<char>>::empty());
    None
}

/// `s` with every trailing repetition of `p` removed (`trim_end_matches`).
pub open spec fn strip_suffix_all(s: Seq<char>, p: Seq<char>) -> Seq<char>
    decreases s.len(),
{
    if p.len() > 0 && ends_with(s, p) {
        strip_suffix_all(s.take(s.len() - p.len()), p)
    } else {
        s
    }
}

fn strip_suffix_all_exec(s: &[char], p: &[char]) -> (r: Vec<char>)
    ensures
        r@ == strip_suffix_all(s@, p@),
{
    let mut v = slice_vec(s, 0, s.len());
    assert(v@ == s@.subrange(0, s@.len() as int));
    assert(s@.subrange(0, s@.len() as int) =~= s@);
    while p.len() > 0 && crate::text::ends_with_exec(v.as_slice(), p)
        invariant
            strip_suffix_all(v@, p@) == strip_suffix_all(s@, p@),
        decreases v.len(),
    {
        let n = v.len() - p.len();
        let w = slice_vec(v.as_slice(), 0, n);
        assert(w@ == v@.take(n as int));
        v = w;
    }
    v
}

/// Is `action_id` already bound in the file (by its marker line)?
pub open spec fn already_bound_spec(src: Seq<char>, action_id: Seq<char>) -> bool {
    let bare = strip_suffix_all("-- opb: "@ + action_id + " |"@, " |"@);
    (exists|i: int| 0 <= i < lines(src).len() && trim(lines(src)[i]) == bare) || contains(
        src,
        "-- opb: "@ + action_id + " |"@,
    )
}

pub fn action_already_bound(keys_lua_src: &str, action_id: &str) -> (r: bool)
    ensures
        r == already_bound_spec(keys_lua_src@, action_id@),
{
    let mut mk: Vec<char> = Vec::new();
    extend_str(&mut mk, "-- opb: ");
    extend_str(&mut mk, action_id);
    extend_str(&mut mk, " |");
    let bar = chars_of(" |");
    let bare = strip_suffix_all_exec(mk.as_slice(), bar.as_slice());
    let sc = chars_of(keys_lua_src);
    let ls = lines_exec(sc.as_slice());
    let ghost lv = vviews(ls@);
    let mut found = false;
    let mut i: usize = 0;
    while i < ls.len()
        invariant
            i <= ls.len(),
            lv == vviews(ls@),
            lv == lines(keys_lua_src@),
            found == exists|j: int| 0 <= j < i && trim(lv[j]) == bare@,
        decreases ls.len() - i,
    {
        let t = trim_exec(ls[i].as_slice());
        assert(lv[i as int] == ls@[i as int]@);
        if seq_eq(t.as_slice(), bare.as_slice()) {
            found = true;
        }
        i += 1;
    }
    found || crate::text::contains_exec(sc.as_slice(), mk.as_slice())
}

// --- catalog assembly -------------------------------------------------------------------

/// Catalog order: by component, then by action id.
pub open spec fn pk_lt(a: ActionV, b: ActionV) -> bool {
    crate::text::lex_lt(a.plugin, b.plugin) || (a.plugin == b.plugin && crate::text::lex_lt(a.id, b.id))
}

fn pk_lt_exec(a: &Action, b: &Action) -> (r: bool)
    ensures
        r == pk_lt(a@, b@),
{
    let ap = chars_of(a.plugin.as_str());
    let bp = chars_of(b.plugin.as_str());
    if crate::text::lex_lt_exec(ap.as_slice(), bp.as_slice()) {
        return true;
    }
    if !seq_eq(ap.as_slice(), bp.as_slice()) {
        return false;
    }
    let ai = chars_of(a.id.as_str());
    let bi = chars_of(b.id.as_str());
    crate::text::lex_lt_exec(ai.as_slice(), bi.as_slice())
}

/// Is `k` one of the kinds that make a component toggleable (a surface)?
pub open spec fn toggleable(kinds: Seq<Seq<char>>) -> bool {
    kinds.contains("panel"@) || kinds.contains("menu"@) || kinds.contains("overlay"@)
}

/// Is manifest `i` the last one with its id (the one a map keyed by id keeps)?
pub open spec fn last_of_id(ms: Seq<(Seq<char>, Seq<Seq<char>>)>, i: int) -> bool {
    forall|j: int| i < j < ms.len() ==> #[trigger] ms[j].0 != ms[i].0
}

/// The kinds the last manifest with this id declares, if any.
pub open spec fn kinds_for(ms: Seq<(Seq<char>, Seq<Seq<char>>)>, id: Seq<char>) -> Seq<Seq<char>>
    decreases ms.len(),
{
    if ms.len() == 0 {
        Seq::empty()
    } else if ms.last().0 == id {
        ms.last().1
    } else {
        kinds_for(ms.drop_last(), id)
    }
}

pub open spec fn has_plugin(acts: Seq<ActionV>, id: Seq<char>) -> bool {
    exists|k: int| 0 <= k < acts.len() && #[trigger] acts[k].plugin == id
}

/// The derived toggle of a surface component that upstream never bound.
pub open spec fn derived_toggle(id: Seq<char>) -> ActionV {
    ActionV {
        id: id + ":toggle"@,
        description: "Toggle "@ + short_name_spec(id) + " (unbound)"@,
        plugin: id,
        invocation: "omarchy-shell shell toggle "@ + id,
        suggested: None,
        derived: true,
    }
}

/// Derived toggles for manifests `0..n`: one per component id (its last
/// manifest) that is toggleable and has no upstream action.
pub open spec fn derived_upto(ms: Seq<(Seq<char>, Seq<Seq<char>>)>, ups: Seq<ActionV>, n: int) -> Seq<ActionV>
    decreases n,
{
    if n <= 0 {
        Seq::empty()
    } else {
        let r = derived_upto(ms, ups, n - 1);
        let i = n - 1;
        if last_of_id(ms, i) && toggleable(ms[i].1) && !has_plugin(ups, ms[i].0) {
            r.push(derived_toggle(ms[i].0))
        } else {
            r
        }
    }
}

/// Every catalog action before ordering: upstream's, then derived toggles.
pub open spec fn catalog_actions(ms: Seq<(Seq<char>, Seq<Seq<char>>)>, bindings_src: Seq<char>) -> Seq<ActionV> {
    let ups = actions_spec(binds_of(lines(bindings_src)));
    ups + derived_upto(ms, ups, ms.len() as int)
}

fn derived_action(id: &str) -> (r: Action)
    ensures
        r@ == derived_toggle(id@),
{
    let sn = short_name(id);
    let mut d: Vec<char> = Vec::new();
    extend_str(&mut d, "Toggle ");
    extend_str(&mut d, sn.as_str());
    extend_str(&mut d, " (unbound)");
    let mut inv: Vec<char> = Vec::new();
    extend_str(&mut inv, "omarchy-shell shell toggle ");
    extend_str(&mut inv, id);
    let mut aid: Vec<char> = Vec::new();
    extend_str(&mut aid, id);
    extend_str(&mut aid, ":toggle");
    Action {
        id: string_of(aid.as_slice()),
        description: string_of(d.as_slice()),
        plugin: id.to_owned(),
        invocation: string_of(inv.as_slice()),
        suggested_combo: None,
        derived: true,
    }
}

fn kinds_of_id<'a>(ms: &'a [crate::shelljson::ManifestInfo], id: &str) -> (r: &'a [String])
    ensures
        crate::text::sviews(r@) == kinds_for(crate::shelljson::mviews(ms@), id@),
{
    let idc = chars_of(id);
    let ghost mv = crate::shelljson::mviews(ms@);
    let mut i = ms.len();
    assert(mv.take(ms.len() as int) =~= mv);
    while i > 0
        invariant
            i <= ms.len(),
            idc@ == id@,
            mv == crate::shelljson::mviews(ms@),
            kinds_for(mv, id@) == kinds_for(mv.take(i as int), id@),
        decreases i,
    {
        let m = &ms[i - 1];
        let ghost t = mv.take(i as int);
        assert(t.last() == m@);
        assert(t.drop_last() == mv.take(i - 1));
        let mc = chars_of(m.id.as_str());
        if seq_eq(mc.as_slice(), idc.as_slice()) {
            return m.kinds.as_slice();
        }
        i -= 1;
    }
    assert(crate::text::sviews(Seq::<String>::empty()) =~= Seq::<Seq<char>>::empty());
    let e: &'a [String] = &[];
    e
}

/// `a` inserted into (component, id)-sorted actions after every action
/// that does not order after it (equal keys keep their order).
pub open spec fn insert_pk(o: Seq<ActionV>, a: ActionV) -> Seq<ActionV>
    decreases o.len(),
{
    if o.len() == 0 {
        seq![a]
    } else if pk_lt(a, o[0]) {
        seq![a] + o
    } else {
        seq![o[0]] + insert_pk(o.drop_first(), a)
    }
}

/// A stable sort of actions by (component, id).
pub open spec fn sort_pk(s: Seq<ActionV>) -> Seq<ActionV>
    decreases s.len(),
{
    if s.len() == 0 {
        Seq::empty()
    } else {
        insert_pk(sort_pk(s.drop_last()), s.last())
    }
}

proof fn lemma_insert_pk_at(o: Seq<ActionV>, a: ActionV, p: int)
    requires
        0 <= p <= o.len(),
        forall|k: int| 0 <= k < p ==> !pk_lt(a, #[trigger] o[k]),
        p < o.len() ==> pk_lt(a, o[p]),
    ensures
        o.insert(p, a) == insert_pk(o, a),
    decreases o.len(),
{
    if o.len() == 0 {
        assert(o.insert(p, a) =~= seq![a]);
    } else if p == 0 {
        assert(o.insert(p, a) =~= seq![a] + o);
    } else {
        assert(!pk_lt(a, o[0]));
        let t = o.drop_first();
        assert forall|k: int| 0 <= k < p - 1 implies !pk_lt(a, #[trigger] t[k]) by {
            assert(t[k] == o[k + 1]);
        }
        lemma_insert_pk_at(t, a, p - 1);
        assert(o.insert(p, a) =~= seq![o[0]] + t.insert(p - 1, a));
    }
}


/// The catalog for a pin: upstream-declared actions plus derived toggles
/// for surfaces upstream never bound, in (component, id) order, each gated
/// by its component's state in the document. Reading the pin's binding
/// files and manifests happens at the edge.
pub fn catalog_from(doc: &Json, manifests: &[crate::shelljson::ManifestInfo], bindings_src: &str) -> (r: Vec<Entry>)
    ensures
        r@.map_values(|e: Entry| e.action@) == sort_pk(catalog_actions(crate::shelljson::mviews(manifests@), bindings_src@)),
        forall|i: int|
            0 <= i < r.len() ==> #[trigger] r@[i].state@ == crate::plugin_list::state_spec(
                doc@,
                kinds_for(crate::shelljson::mviews(manifests@), r@[i].action.plugin@),
                r@[i].action.plugin@,
            ),
{
    let ghost mv = crate::shelljson::mviews(manifests@);
    let binds = parse_binds(bindings_src);
    let mut actions = actions_from_binds(binds.as_slice());
    let ghost ups = actions_view(actions@);
    assert(ups == actions_spec(binds_of(lines(bindings_src@))));
    let n_up = actions.len();
    let mut i: usize = 0;
    while i < manifests.len()
        invariant
            i <= manifests.len(),
            mv == crate::shelljson::mviews(manifests@),
            n_up <= actions.len(),
            actions_view(actions@) == ups + derived_upto(mv, ups, i as int),
            ups.len() == n_up,
        decreases manifests.len() - i,
    {
        let m = &manifests[i];
        assert(mv[i as int] == m@);
        let mc = chars_of(m.id.as_str());
        // the last manifest with this id?
        let mut last = true;
        let mut j = i + 1;
        while j < manifests.len()
            invariant
                i < j <= manifests.len(),
                mv == crate::shelljson::mviews(manifests@),
                mc@ == mv[i as int].0,
                last == forall|k: int| i < k < j ==> #[trigger] mv[k].0 != mv[i as int].0,
            decreases manifests.len() - j,
        {
            let oc = chars_of(manifests[j].id.as_str());
            assert(mv[j as int].0 == manifests@[j as int].id@);
            if seq_eq(oc.as_slice(), mc.as_slice()) {
                last = false;
            }
            j += 1;
        }
        let tog = crate::shelljson::has_kind(m, "panel") || crate::shelljson::has_kind(m, "menu")
            || crate::shelljson::has_kind(m, "overlay");
        let mut bound_up = false;
        let mut k: usize = 0;
        while k < n_up
            invariant
                k <= n_up,
                n_up <= actions.len(),
                ups.len() == n_up,
                actions_view(actions@).take(n_up as int) == ups,
                mc@ == mv[i as int].0,
                bound_up == exists|q: int| 0 <= q < k && #[trigger] ups[q].plugin == mc@,
            decreases n_up - k,
        {
            assert(ups[k as int] == actions@[k as int]@);
            let pc = chars_of(actions[k].plugin.as_str());
            assert(ups[k as int].plugin == pc@);
            if seq_eq(pc.as_slice(), mc.as_slice()) {
                bound_up = true;
            }
            k += 1;
        }
        proof {
            assert(actions_view(actions@).take(n_up as int) =~= ups);
        }
        let ghost before = actions_view(actions@);
        if last && tog && !bound_up {
            actions.push(derived_action(m.id.as_str()));
            assert(actions_view(actions@) =~= before.push(derived_toggle(mv[i as int].0)));
        }
        i += 1;
    }
    // stable insertion sort by (component, id)
    let ghost all = actions_view(actions@);
    assert(all == catalog_actions(mv, bindings_src@));
    let mut sorted: Vec<Action> = Vec::new();
    let mut src = actions;
    let mut n: usize = 0;
    let total = src.len();
    assert(all.take(0) =~= Seq::<ActionV>::empty());
    assert(actions_view(sorted@) =~= Seq::<ActionV>::empty());
    assert(src@.map_values(|a: Action| a@) =~= all.skip(0));
    while src.len() > 0
        invariant
            n + src.len() == total,
            all.len() == total,
            actions_view(src@) == all.skip(n as int),
            actions_view(sorted@) == sort_pk(all.take(n as int)),
        decreases src.len(),
    {
        let ghost s0 = actions_view(src@);
        let ghost v0 = src@;
        let a = src.remove(0);
        assert(a@ == all[n as int]) by {
            assert(s0[0] == all.skip(n as int)[0]);
        }
        assert forall|t: int| 0 <= t < src.len() implies #[trigger] actions_view(src@)[t] == all.skip(n + 1)[t] by {
            assert(src@[t] == v0[t + 1]);
            assert(s0[t + 1] == all.skip(n as int)[t + 1]);
        }
        assert(actions_view(src@) =~= all.skip(n + 1));
        let ghost o = actions_view(sorted@);
        let mut p: usize = 0;
        while p < sorted.len() && !pk_lt_exec(&a, &sorted[p])
            invariant
                p <= sorted.len(),
                o == actions_view(sorted@),
                forall|q: int| 0 <= q < p ==> !pk_lt(a@, o[q]),
            decreases sorted.len() - p,
        {
            p += 1;
        }
        let ghost av = a@;
        sorted.insert(p, a);
        proof {
            let nn = actions_view(sorted@);
            assert(nn =~= o.insert(p as int, av));
            lemma_insert_pk_at(o, av, p as int);
            assert(all.take(n + 1).drop_last() =~= all.take(n as int));
            assert(all.take(n + 1).last() == av);
        }
        n += 1;
    }
    assert(all.take(total as int) =~= all);
    // gate each action by its component's state
    let ghost sv = sorted@;
    let mut rest = sorted;
    let mut out: Vec<Entry> = Vec::new();
    let mut q: usize = 0;
    let len = rest.len();
    assert(sv.skip(0) =~= sv);
    while rest.len() > 0
        invariant
            q + rest.len() == len,
            sv.len() == len,
            rest@ == sv.skip(q as int),
            mv == crate::shelljson::mviews(manifests@),
            out.len() == q,
            forall|t: int| 0 <= t < q ==> #[trigger] out@[t].action == sv[t],
            forall|t: int|
                0 <= t < q ==> #[trigger] out@[t].state@ == crate::plugin_list::state_spec(
                    doc@,
                    kinds_for(mv, out@[t].action.plugin@),
                    out@[t].action.plugin@,
                ),
        decreases rest.len(),
    {
        let ghost r0 = rest@;
        let a = rest.remove(0);
        assert(a == sv[q as int]) by {
            assert(r0[0] == sv.skip(q as int)[0]);
        }
        assert(rest@ =~= sv.skip(q + 1));
        let kinds = kinds_of_id(manifests, a.plugin.as_str());
        let state = crate::plugin_list::state_of(doc, kinds, a.plugin.as_str());
        out.push(Entry { action: a, state });
        q += 1;
    }
    assert(out@.map_values(|e: Entry| e.action@) =~= actions_view(sv));
    out
}

// --- write planning ---------------------------------------------------------------------

/// Why a bind cannot be written.
#[derive(Debug, Clone, PartialEq)]
pub enum BindingError {
    /// The combo does not parse.
    Combo(ComboError),
    /// keys.lua already binds this combo for another action (as written there).
    DuplicateCombo(String),
}

/// What the live session says about the combo.
#[derive(Debug, Clone, PartialEq)]
pub enum LiveCheck {
    /// hyprctl was unavailable: nothing checked.
    Unavailable,
    /// No live bind occupies the combo.
    Free,
    /// The combo is occupied; binding it shadows this bind (described).
    Occupied(String),
}

/// The new keys.lua and the live verdict; an occupied combo is written only
/// after an explicit confirmation.
#[derive(Debug)]
pub struct BindingPlan {
    pub combo: Combo,
    pub next: String,
    pub live: LiveCheck,
}

/// The keys.lua text after binding `a` to `c`: rebound in place when the
/// action is already bound, else appended.
pub open spec fn next_source_spec(src: Seq<char>, pin_dir: Seq<char>, a: ActionV, c: (u32, Seq<char>)) -> Seq<char> {
    let entry = render_entry_spec(pin_dir, a, c);
    if already_bound_spec(src, a.id) {
        rewrite_action_block_spec(src, a.id, entry)
    } else {
        append_source_spec(src, entry)
    }
}

/// keys.lua without this action's own block: where duplicates are looked for.
pub open spec fn others_spec(src: Seq<char>, a: ActionV) -> Seq<char> {
    if already_bound_spec(src, a.id) {
        rewrite_action_block_spec(src, a.id, Seq::empty())
    } else {
        src
    }
}

/// The combo this action is bound to now, exempt from the live check.
pub open spec fn own_current_spec(src: Seq<char>, a: ActionV) -> Option<(u32, Seq<char>)> {
    if already_bound_spec(src, a.id) {
        bound_lookup(bound_combos_spec(src), a.id)
    } else {
        None
    }
}

/// Plans `opb keys set` and the editor's writes: parse, duplicate check
/// against the other entries, replace-or-append, and the live occupancy
/// verdict (the action's own current combo exempt).
pub fn plan_binding(
    src: &str,
    pin_dir: &str,
    action: &Action,
    combo_input: &str,
    live: Option<&[LiveBind]>,
) -> (r: Result<BindingPlan, BindingError>)
    ensures
        match r {
            Err(BindingError::Combo(e)) => combo_of(combo_input@) is None && match e {
                ComboError::MoreThanOneKey(s) => s@ == combo_input@ && combo_state(combo_tokens(combo_input@)) is None,
                ComboError::NoKey(s) => s@ == combo_input@ && (combo_state(combo_tokens(combo_input@)) matches Some(st) && st.1 is None),
            },
            Err(BindingError::DuplicateCombo(w)) => combo_of(combo_input@) matches Some(c) && first_conflict(
                lines(others_spec(src@, action@)),
                c,
            ) == Some(w@),
            Ok(p) => combo_of(combo_input@) == Some(p.combo@) && first_conflict(
                lines(others_spec(src@, action@)),
                p.combo@,
            ) is None && p.next@ == next_source_spec(src@, pin_dir@, action@, p.combo@) && match live {
                None => p.live == LiveCheck::Unavailable,
                Some(l) => match first_collision(l@, p.combo@, own_current_spec(src@, action@)) {
                    Some(d) => p.live matches LiveCheck::Occupied(x) && x@ == d,
                    None => p.live == LiveCheck::Free,
                },
            },
        },
{
    let combo = match parse_combo(combo_input) {
        Ok(c) => c,
        Err(e) => {
            return Err(BindingError::Combo(e));
        },
    };
    let already = action_already_bound(src, action.id.as_str());
    let combos = bound_combos(src);
    let own_current: Option<&Combo> = if already {
        combos.get(action.id.as_str())
    } else {
        None
    };
    let entry = render_entry(pin_dir, action, &combo);
    let next = if already {
        rewrite_action_block(src, action.id.as_str(), entry.as_str())
    } else {
        append_source(src, entry.as_str())
    };
    let others = if already {
        rewrite_action_block(src, action.id.as_str(), "")
    } else {
        src.to_owned()
    };
    proof {
        reveal_strlit("");
    }
    match existing_combo_conflict(others.as_str(), &combo) {
        Some(w) => {
            return Err(BindingError::DuplicateCombo(w));
        },
        None => {},
    }
    let live_check = match live {
        None => LiveCheck::Unavailable,
        Some(l) => match collision_excluding(&combo, l, own_current) {
            Some(d) => LiveCheck::Occupied(d),
            None => LiveCheck::Free,
        },
    };
    Ok(BindingPlan { combo, next, live: live_check })
}

/// keys.lua without the action's block, or `None` when there was no
/// opb-managed block to remove.
pub fn plan_removal(src: &str, action_id: &str) -> (r: Option<String>)
    ensures
        match r {
            Some(n) => n@ == rewrite_action_block_spec(src@, action_id@, Seq::empty()) && n@ != src@,
            None => rewrite_action_block_spec(src@, action_id@, Seq::empty()) == src@,
        },
{
    let next = rewrite_action_block(src, action_id, "");
    proof {
        reveal_strlit("");
    }
    let a = chars_of(next.as_str());
    let b = chars_of(src);
    if seq_eq(a.as_slice(), b.as_slice()) {
        None
    } else {
        Some(next)
    }
}

// --- the interactive editor and the live session -------------------------------

/// One editor row: icon, action id, combo (cut or padded to 14) and the
/// description, aligned.
pub open spec fn edit_label_spec(a: ActionV, bound: Option<(u32, Seq<char>)>) -> Seq<char> {
    crate::text::pad_right(bind_icon_spec(bind_state_spec(a, bound)), 4) + " "@ + crate::text::pad_right(a.id, 20)
        + " "@ + crate::text::pad_right(truncate_pad_spec(display_combo_spec(a, bound), 14), 14) + " "@
        + a.description
}

pub fn edit_label(action: &Action, bound: Option<&Combo>) -> (r: String)
    ensures
        r@ == edit_label_spec(action@, opt_combo(bound)),
{
    let mut v: Vec<char> = Vec::new();
    let icon = chars_of(bind_icon(bind_state(action, bound)));
    crate::text::push_padded(&mut v, icon.as_slice(), 4);
    extend_str(&mut v, " ");
    let id = chars_of(action.id.as_str());
    crate::text::push_padded(&mut v, id.as_slice(), 20);
    extend_str(&mut v, " ");
    let shown = display_combo(action, bound);
    let sc = chars_of(shown.as_str());
    let t = truncate_pad(sc.as_slice(), 14);
    crate::text::push_padded(&mut v, t.as_slice(), 14);
    extend_str(&mut v, " ");
    extend_str(&mut v, action.description.as_str());
    string_of(v.as_slice())
}

/// The text the combo prompt starts with: the current bind, else the
/// upstream suggestion, else nothing.
pub open spec fn initial_combo_spec(a: ActionV, bound: Option<(u32, Seq<char>)>) -> Seq<char> {
    match bound {
        Some(c) => combo_text(c),
        None => match a.suggested {
            Some(s) => s,
            None => Seq::empty(),
        },
    }
}

pub fn initial_combo(action: &Action, bound: Option<&Combo>) -> (r: String)
    ensures
        r@ == initial_combo_spec(action@, opt_combo(bound)),
{
    match bound {
        Some(c) => c.to_lua_string(),
        None => match &action.suggested_combo {
            Some(s) => s.clone(),
            None => String::new(),
        },
    }
}

/// What a line typed at the combo prompt means.
#[derive(Debug, Clone, PartialEq, Eq)]
pub enum ComboReply {
    /// Empty: unbind the action.
    Unbind,
    /// A combo that parses (trimmed): bind it.
    Accept(String),
    /// Not a combo: ask again.
    Invalid,
}

pub open spec fn reply_view(r: ComboReply) -> Option<Option<Seq<char>>> {
    match r {
        ComboReply::Unbind => Some(None),
        ComboReply::Accept(t) => Some(Some(t@)),
        ComboReply::Invalid => None,
    }
}

pub open spec fn combo_reply_spec(text: Seq<char>) -> Option<Option<Seq<char>>> {
    let t = trim(text);
    if t.len() == 0 {
        Some(None)
    } else if combo_of(t) is Some {
        Some(Some(t))
    } else {
        None
    }
}

pub fn combo_reply(text: &str) -> (r: ComboReply)
    ensures
        reply_view(r) == combo_reply_spec(text@),
{
    let c = chars_of(text);
    let t = trim_exec(c.as_slice());
    if t.len() == 0 {
        return ComboReply::Unbind;
    }
    let ts = string_of(t.as_slice());
    match parse_combo(ts.as_str()) {
        Ok(_) => ComboReply::Accept(ts),
        Err(_) => ComboReply::Invalid,
    }
}

/// The Lua that unregisters one of opb's combos from the live session.
pub open spec fn unbind_code_spec(c: (u32, Seq<char>)) -> Seq<char> {
    "hl.unbind(\""@ + crate::text::replace_all(combo_text(c), "\""@, "\\\""@) + "\")"@
}

pub fn unbind_code(combo: &Combo) -> (r: String)
    ensures
        r@ == unbind_code_spec(combo@),
{
    let text = combo.to_lua_string();
    let tc = chars_of(text.as_str());
    let q = chars_of("\"");
    let e = chars_of("\\\"");
    proof {
        reveal_strlit("\"");
    }
    let esc = crate::text::replace_all_exec(tc.as_slice(), q.as_slice(), e.as_slice());
    let mut v: Vec<char> = Vec::new();
    extend_str(&mut v, "hl.unbind(\"");
    extend_chars(&mut v, esc.as_slice());
    extend_str(&mut v, "\")");
    string_of(v.as_slice())
}

/// Non-overlapping occurrences of `p` in `s`, scanning left to right
/// (`str::matches(p).count()`).
pub open spec fn count_occ(s: Seq<char>, p: Seq<char>) -> nat
    recommends
        p.len() > 0,
    decreases s.len(),
{
    if p.len() == 0 || s.len() < p.len() {
        0
    } else if starts_with(s, p) {
        1 + count_occ(s.skip(p.len() as int), p)
    } else {
        count_occ(s.drop_first(), p)
    }
}

/// The marker every opb entry carries.
pub const ENTRY_MARKER: &'static str = "-- opb: ";

/// How many opb entries keys.lua holds: the binds a live registration
/// applies (none means nothing to evaluate).
pub fn entry_count(keys_lua_src: &str) -> (r: usize)
    ensures
        r == count_occ(keys_lua_src@, ENTRY_MARKER@),
{
    let s = chars_of(keys_lua_src);
    let p = chars_of(ENTRY_MARKER);
    proof {
        reveal_strlit("-- opb: ");
    }
    let mut n: usize = 0;
    let mut i: usize = 0;
    assert(s@.skip(0) == s@);
    while i < s.len()
        invariant
            i <= s.len(),
            p@ == ENTRY_MARKER@,
            p.len() == 8,
            n <= i,
            n + count_occ(s@.skip(i as int), p@) == count_occ(s@, p@),
        decreases s.len() - i,
    {
        let ghost rest = s@.skip(i as int);
        if s.len() - i < p.len() {
            assert(count_occ(rest, p@) == 0);
            i = s.len();
            assert(s@.skip(i as int).len() == 0);
        } else if crate::text::starts_with_at(s.as_slice(), p.as_slice(), i) {
            assert(rest.subrange(0, p@.len() as int) == s@.subrange(i as int, i + p@.len()));
            assert(starts_with(rest, p@));
            assert(rest.skip(p@.len() as int) == s@.skip(i + p@.len()));
            n += 1;
            i += p.len();
        } else {
            assert(rest.subrange(0, p@.len() as int) == s@.subrange(i as int, i + p@.len()));
            assert(!starts_with(rest, p@));
            assert(rest.drop_first() == s@.skip(i + 1));
            i += 1;
        }
    }
    n
}

/// Does a Hyprland event line report a config reload?
pub open spec fn is_reload_event_spec(line: Seq<char>) -> bool {
    starts_with(line, "configreloaded"@)
}

pub fn is_reload_event(line: &str) -> (r: bool)
    ensures
        r == is_reload_event_spec(line@),
{
    let c = chars_of(line);
    starts_with_str(c.as_slice(), "configreloaded")
}

/// The pid recorded in the keeper's pid file (surrounding whitespace
/// ignored), when it is one.
pub fn parse_pid(pid_file: &str) -> (r: Option<u32>)
    ensures
        r == crate::text::parse_u32(trim(pid_file@)),
{
    let c = chars_of(pid_file);
    let t = trim_exec(c.as_slice());
    crate::text::parse_u32_exec(t.as_slice())
}

/// Why `opb keys set` refused an action id.
#[derive(Debug, Clone, PartialEq, Eq)]
pub enum LookupError {
    UnknownAction(String),
}

impl LookupError {
    pub fn message(&self) -> (r: String)
        ensures
            r@ == match *self {
                LookupError::UnknownAction(id) => "unknown action "@ + debug_quoted(id@)
                    + " — see `opb keys list [--all]`"@,
            },
    {
        match self {
            LookupError::UnknownAction(id) => {
                let mut v: Vec<char> = Vec::new();
                extend_str(&mut v, "unknown action ");
                let q = debug_str(id.as_str());
                extend_str(&mut v, q.as_str());
                extend_str(&mut v, " — see `opb keys list [--all]`");
                string_of(v.as_slice())
            },
        }
    }
}

/// The first catalog entry for the action id.
pub fn lookup_entry<'a>(entries: &'a [Entry], action_id: &str) -> (r: Result<&'a Entry, LookupError>)
    ensures
        match r {
            Ok(e) => exists|i: int|
                0 <= i < entries@.len() && entries@[i] == *e && e.action.id@ == action_id@ && forall|j: int|
                    0 <= j < i ==> entries@[j].action.id@ != action_id@,
            Err(LookupError::UnknownAction(x)) => x@ == action_id@ && forall|j: int|
                0 <= j < entries@.len() ==> entries@[j].action.id@ != action_id@,
        },
{
    let mut i: usize = 0;
    while i < entries.len()
        invariant
            i <= entries.len(),
            forall|j: int| 0 <= j < i ==> entries@[j].action.id@ != action_id@,
        decreases entries.len() - i,
    {
        let c = chars_of(entries[i].action.id.as_str());
        if eq_str(c.as_slice(), action_id) {
            assert(entries@[i as int] == entries[i as int]);
            return Ok(&entries[i]);
        }
        i += 1;
    }
    Err(LookupError::UnknownAction(action_id.to_owned()))
}

/// The note `opb keys set` prints for an action of a disabled component.
pub fn off_note(entry: &Entry) -> (r: Option<String>)
    ensures
        match r {
            Some(n) => entry_off(*entry) && n@ == "note: component "@ + entry.action.plugin@
                + " is disabled — the bind will no-op until you enable it"@,
            None => !entry_off(*entry),
        },
{
    let st = chars_of(entry.state);
    if eq_str(st.as_slice(), "off") {
        let mut v: Vec<char> = Vec::new();
        extend_str(&mut v, "note: component ");
        extend_str(&mut v, entry.action.plugin.as_str());
        extend_str(&mut v, " is disabled — the bind will no-op until you enable it");
        Some(string_of(v.as_slice()))
    } else {
        None
    }
}

} // verus!

