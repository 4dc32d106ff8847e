//! Pin lock state: what upstream is pinned to (`upstream.lock` records
//! channel, ref and commit, plus the generation a rollback returns to).
//! Serializing the lock and touching the filesystem happen at the edge.
use vstd::prelude::*;

use crate::paths::{join_spec, upstream_spec, Paths, PIN_DIRNAME_PREFIX};
use crate::text::{
    chars_of, debug_quoted, debug_str, extend_str, is_digit, parse_u64, parse_u64_exec, slice_vec,
    split_char, split_char_exec, starts_with, string_of, trim, trim_exec, vviews,
};

verus! {

/// The only channel today: tag pinning.
pub const CHANNEL_STABLE: &'static str = "stable";

/// The generation a rollback returns to.
#[derive(Debug, Clone, PartialEq, Eq)]
pub struct PreviousPin {
    pub reference: String,
    pub commit: String,
}

/// The contents of `upstream.lock`.
#[derive(Debug, Clone, PartialEq, Eq)]
pub struct PinLock {
    pub channel: String,
    /// Upstream ref as requested (tag or branch), written as `ref`.
    pub reference: String,
    /// Full commit sha the pin dir was cloned at.
    pub commit: String,
    /// The generation to flip back to; none right after bootstrap.
    pub previous: Option<PreviousPin>,
}

/// A lock as plain values: channel, ref, commit, previous (ref, commit).
pub open spec fn lock_view(l: PinLock) -> (Seq<char>, Seq<char>, Seq<char>, Option<(Seq<char>, Seq<char>)>) {
    (
        l.channel@,
        l.reference@,
        l.commit@,
        match l.previous {
            Some(p) => Some((p.reference@, p.commit@)),
            None => None,
        },
    )
}

impl PinLock {
    /// A stable-channel pin with no previous generation.
    pub fn stable(reference: &str, commit: &str) -> (r: PinLock)
        ensures
            lock_view(r) == (CHANNEL_STABLE@, reference@, commit@, None::<(Seq<char>, Seq<char>)>),
    {
        PinLock {
            channel: CHANNEL_STABLE.to_owned(),
            reference: reference.to_owned(),
            commit: commit.to_owned(),
            previous: None,
        }
    }

    /// This pin chained onto `lock` as its rollback generation.
    pub fn with_previous(self, lock: &PinLock) -> (r: PinLock)
        ensures
            lock_view(r) == (
                lock_view(self).0,
                lock_view(self).1,
                lock_view(self).2,
                Some((lock.reference@, lock.commit@)),
            ),
    {
        PinLock {
            channel: self.channel,
            reference: self.reference,
            commit: self.commit,
            previous: Some(PreviousPin { reference: lock.reference.clone(), commit: lock.commit.clone() }),
        }
    }
}

/// Why a pin cannot be used.
#[derive(Debug, Clone, PartialEq, Eq)]
pub enum PinError {
    /// No lock and no `current` link.
    NotBootstrapped,
    /// The version file does not parse (trimmed content).
    Unparseable(String),
    /// The version predates the plugin architecture (the file's content).
    PredatesFloor(String),
}

impl PinError {
    pub fn message(&self) -> (r: String)
        ensures
            r@ == match self {
                PinError::NotBootstrapped => "not bootstrapped — run `opb bootstrap` first"@,
                PinError::Unparseable(s) => "unparseable upstream version "@ + debug_quoted(s@),
                PinError::PredatesFloor(s) => "upstream version "@ + s@
                    + " predates quattro (4.0) — the plugin architecture does not exist before v4.0.0"@,
            },
    {
        match self {
            PinError::NotBootstrapped => "not bootstrapped — run `opb bootstrap` first".to_owned(),
            PinError::Unparseable(s) => {
                let mut v: Vec<char> = Vec::new();
                extend_str(&mut v, "unparseable upstream version ");
                let q = debug_str(s.as_str());
                extend_str(&mut v, q.as_str());
                string_of(v.as_slice())
            },
            PinError::PredatesFloor(s) => {
                let mut v: Vec<char> = Vec::new();
                extend_str(&mut v, "upstream version ");
                extend_str(&mut v, s.as_str());
                extend_str(
                    &mut v,
                    " predates quattro (4.0) — the plugin architecture does not exist before v4.0.0",
                );
                string_of(v.as_slice())
            },
        }
    }
}

/// `Path::file_name` on text: the last component, ignoring empty and `.`
/// components; none when it is `..` or there is none.
pub open spec fn normal_components(ps: Seq<Seq<char>>) -> Seq<Seq<char>>
    decreases ps.len(),
{
    if ps.len() == 0 {
        Seq::empty()
    } else {
        let r = normal_components(ps.drop_last());
        if ps.last().len() == 0 || ps.last() == "."@ {
            r
        } else {
            r.push(ps.last())
        }
    }
}

pub open spec fn file_name_spec(p: Seq<char>) -> Option<Seq<char>> {
    let cs = normal_components(split_char(p, '/'));
    if cs.len() == 0 || cs.last() == ".."@ {
        None
    } else {
        Some(cs.last())
    }
}

pub fn file_name(p: &str) -> (r: Option<String>)
    ensures
        match r {
            Some(n) => file_name_spec(p@) == Some(n@),
            None => file_name_spec(p@) is None,
        },
{
    let pc = chars_of(p);
    let ps = split_char_exec(pc.as_slice(), '/');
    let mut last: Option<Vec<char>> = None;
    let mut i: usize = 0;
    let ghost pv = vviews(ps@);
    assert(pv.take(0) =~= Seq::<Seq<char>>::empty());
    while i < ps.len()
        invariant
            i <= ps.len(),
            pv == vviews(ps@),
            pv == split_char(p@, '/'),
            match last {
                Some(l) => normal_components(pv.take(i as int)).len() > 0 && normal_components(pv.take(i as int)).last() == l@,
                None => normal_components(pv.take(i as int)).len() == 0,
            },
        decreases ps.len() - i,
    {
        assert(pv.take(i + 1).drop_last() == pv.take(i as int));
        assert(pv.take(i + 1).last() == ps@[i as int]@);
        let c = &ps[i];
        if !(c.len() == 0 || crate::text::eq_str(c.as_slice(), ".")) {
            last = Some(slice_vec(c.as_slice(), 0, c.len()));
            assert(c@.subrange(0, c@.len() as int) =~= c@);
        }
        i += 1;
    }
    assert(pv.take(ps.len() as int) == pv);
    match last {
        Some(l) => if crate::text::eq_str(l.as_slice(), "..") {
            None
        } else {
            Some(string_of(l.as_slice()))
        },
        None => None,
    }
}

/// `s` without the prefix `p`, or `s` itself when it does not start with it.
pub open spec fn strip_prefix_or(s: Seq<char>, p: Seq<char>) -> Seq<char> {
    if starts_with(s, p) {
        s.skip(p.len() as int)
    } else {
        s
    }
}

/// The active pin (commit and dir): the lock's commit when there is a lock,
/// else derived from where the `current` link points (`omarchy@` stripped
/// from its file name), else none.
pub open spec fn active_pin_spec(
    lock_commit: Option<Seq<char>>,
    link_target: Option<Seq<char>>,
    upstream: Seq<char>,
) -> Option<(Seq<char>, Seq<char>)> {
    match lock_commit {
        Some(c) => Some((c, join_spec(upstream, PIN_DIRNAME_PREFIX@ + c))),
        None => match link_target {
            Some(t) => {
                let name = match file_name_spec(t) {
                    Some(n) => n,
                    None => Seq::empty(),
                };
                Some((strip_prefix_or(name, PIN_DIRNAME_PREFIX@), t))
            },
            None => None,
        },
    }
}

/// Resolves the active pin from what the edge read: the lock (if any) and
/// the `current` link's target (if it is a link).
pub fn active_pin(paths: &Paths, lock: Option<&PinLock>, link_target: Option<&str>) -> (r: Option<(String, String)>)
    ensures
        match r {
            Some(p) => active_pin_spec(
                match lock {
                    Some(l) => Some(l.commit@),
                    None => None,
                },
                match link_target {
                    Some(t) => Some(t@),
                    None => None,
                },
                upstream_spec(paths@),
            ) == Some((p.0@, p.1@)),
            None => active_pin_spec(
                match lock {
                    Some(l) => Some(l.commit@),
                    None => None,
                },
                match link_target {
                    Some(t) => Some(t@),
                    None => None,
                },
                upstream_spec(paths@),
            ) is None,
        },
{
    match lock {
        Some(l) => {
            let d = paths.pin_dir(l.commit.as_str());
            Some((l.commit.clone(), d))
        },
        None => match link_target {
            Some(t) => {
                let name: Vec<char> = match file_name(t) {
                    Some(n) => chars_of(n.as_str()),
                    None => Vec::new(),
                };
                let commit = if crate::text::starts_with_str(name.as_slice(), PIN_DIRNAME_PREFIX) {
                    let p = chars_of(PIN_DIRNAME_PREFIX);
                    string_of(slice_vec(name.as_slice(), p.len(), name.len()).as_slice())
                } else {
                    string_of(name.as_slice())
                };
                proof {
                    let nv = name@;
                    if starts_with(nv, PIN_DIRNAME_PREFIX@) {
                        assert(nv.subrange(PIN_DIRNAME_PREFIX@.len() as int, nv.len() as int) =~= nv.skip(
                            PIN_DIRNAME_PREFIX@.len() as int,
                        ));
                    }
                }
                Some((commit, t.to_owned()))
            },
            None => None,
        },
    }
}

/// The active pin's dir, or not bootstrapped.
pub fn active_dir(active: Option<(String, String)>) -> (r: Result<String, PinError>)
    ensures
        match active {
            Some(p) => r == Ok::<String, PinError>(p.1),
            None => r == Err::<String, PinError>(PinError::NotBootstrapped),
        },
{
    match active {
        Some((_, dir)) => Ok(dir),
        None => Err(PinError::NotBootstrapped),
    }
}

/// An abbreviated commit sha for display: its first 8 characters.
pub open spec fn short_spec(commit: Seq<char>) -> Seq<char> {
    commit.take(if commit.len() < 8 {
        commit.len() as int
    } else {
        8
    })
}

pub fn short(commit: &str) -> (r: String)
    ensures
        r@ == short_spec(commit@),
{
    let c = chars_of(commit);
    let n = if c.len() < 8 {
        c.len()
    } else {
        8
    };
    string_of(slice_vec(c.as_slice(), 0, n).as_slice())
}

/// The leading ASCII digits of a segment.
pub open spec fn leading_digits(s: Seq<char>) -> Seq<char>
    decreases s.len(),
{
    if s.len() > 0 && is_digit(s[0]) {
        seq![s[0]] + leading_digits(s.drop_first())
    } else {
        Seq::empty()
    }
}

/// Each `-` read as a `.`.
pub open spec fn dashes_to_dots(s: Seq<char>) -> Seq<char> {
    s.map_values(|c: char| if c == '-' {
        '.'
    } else {
        c
    })
}

/// The value of segment `i` (0 when there are fewer segments), or none
/// when the segment has no leading digits or overflows.
pub open spec fn segment_value(segs: Seq<Seq<char>>, i: int) -> Option<u64> {
    if i < segs.len() {
        let d = leading_digits(segs[i]);
        if d.len() == 0 {
            None
        } else {
            parse_u64(d)
        }
    } else {
        Some(0)
    }
}

/// A tolerant read of upstream's `version` file (observed: `4.0.0.alpha`):
/// trimmed, one leading `v` dropped, `-` treated as `.`, the first three
/// segments' leading digits; missing segments are zero.
pub open spec fn parse_version_spec(s: Seq<char>) -> Option<(u64, u64, u64)> {
    let t = trim(s);
    let t2 = if t.len() > 0 && t[0] == 'v' {
        t.drop_first()
    } else {
        t
    };
    let segs = split_char(dashes_to_dots(t2), '.');
    match (segment_value(segs, 0), segment_value(segs, 1), segment_value(segs, 2)) {
        (Some(a), Some(b), Some(c)) => Some((a, b, c)),
        _ => None,
    }
}

fn leading_digits_exec(s: &[char]) -> (r: Vec<char>)
    ensures
        r@ == leading_digits(s@),
{
    let mut n: usize = 0;
    assert(s@.skip(0) =~= s@);
    assert(s@.take(0) + leading_digits(s@) =~= leading_digits(s@));
    while n < s.len() && '0' <= s[n] && s[n] <= '9'
        invariant
            n <= s.len(),
            leading_digits(s@) == s@.take(n as int) + leading_digits(s@.skip(n as int)),
        decreases s.len() - n,
    {
        let ghost rest = s@.skip(n as int);
        assert(rest.drop_first() =~= s@.skip(n + 1));
        assert(s@.take(n + 1) =~= s@.take(n as int) + seq![s@[n as int]]);
        n += 1;
    }
    let ghost rest = s@.skip(n as int);
    assert(leading_digits(rest) =~= Seq::<char>::empty());
    assert(s@.take(n as int) + Seq::<char>::empty() =~= s@.take(n as int));
    slice_vec(s, 0, n)
}

fn segment_value_exec(segs: &Vec<Vec<char>>, i: usize) -> (r: Option<u64>)
    ensures
        r == segment_value(vviews(segs@), i as int),
{
    if i < segs.len() {
        assert(vviews(segs@)[i as int] == segs@[i as int]@);
        let d = leading_digits_exec(segs[i].as_slice());
        if d.len() == 0 {
            None
        } else {
            parse_u64_exec(d.as_slice())
        }
    } else {
        Some(0)
    }
}

pub fn parse_version(s: &str) -> (r: Option<(u64, u64, u64)>)
    ensures
        r == parse_version_spec(s@),
{
    let c = chars_of(s);
    let t = trim_exec(c.as_slice());
    let t2 = if t.len() > 0 && t[0] == 'v' {
        slice_vec(t.as_slice(), 1, t.len())
    } else {
        slice_vec(t.as_slice(), 0, t.len())
    };
    assert(t@.len() > 0 && t@[0] == 'v' ==> t2@ =~= t@.drop_first());
    assert(!(t@.len() > 0 && t@[0] == 'v') ==> t2@ =~= t@);
    let mut d: Vec<char> = Vec::new();
    let mut i: usize = 0;
    while i < t2.len()
        invariant
            i <= t2.len(),
            d@ == dashes_to_dots(t2@.take(i as int)),
        decreases t2.len() - i,
    {
        let ch = if t2[i] == '-' {
            '.'
        } else {
            t2[i]
        };
        d.push(ch);
        assert(dashes_to_dots(t2@.take(i + 1)) =~= dashes_to_dots(t2@.take(i as int)).push(ch));
        i += 1;
    }
    assert(t2@.take(t2.len() as int) == t2@);
    let segs = split_char_exec(d.as_slice(), '.');
    let a = segment_value_exec(&segs, 0);
    let b = segment_value_exec(&segs, 1);
    let cc = segment_value_exec(&segs, 2);
    match (a, b, cc) {
        (Some(x), Some(y), Some(z)) => Some((x, y, z)),
        _ => None,
    }
}

/// Tuple order on versions.
pub open spec fn triple_lt(a: (u64, u64, u64), b: (u64, u64, u64)) -> bool {
    a.0 < b.0 || (a.0 == b.0 && (a.1 < b.1 || (a.1 == b.1 && a.2 < b.2)))
}

/// The support floor, 4.0.0: the plugin architecture begins with quattro.
pub open spec fn min_supported() -> (u64, u64, u64) {
    (4, 0, 0)
}

/// Enforces the support floor against `version`-file content; the parsed
/// version on success.
pub fn ensure_floor(version_file: &str) -> (r: Result<(u64, u64, u64), PinError>)
    ensures
        match parse_version_spec(version_file@) {
            None => r matches Err(PinError::Unparseable(t)) && t@ == trim(version_file@),
            Some(v) => if triple_lt(v, min_supported()) {
                r matches Err(PinError::PredatesFloor(t)) && t@ == version_file@
            } else {
                r == Ok::<(u64, u64, u64), PinError>(v)
            },
        },
{
    match parse_version(version_file) {
        None => {
            let c = chars_of(version_file);
            let t = trim_exec(c.as_slice());
            Err(PinError::Unparseable(string_of(t.as_slice())))
        },
        Some(v) => {
            let (a, b, c) = v;
            if a < 4 || (a == 4 && (b < 0 || (b == 0 && c < 0))) {
                Err(PinError::PredatesFloor(version_file.to_owned()))
            } else {
                Ok(v)
            }
        },
    }
}

} // verus!
