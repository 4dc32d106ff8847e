//! Semantic version extraction from tool output strings.
use vstd::prelude::*;

use crate::text::{
    chars_of, dec, dec_exec, extend_chars, is_digit, parse_u32, parse_u32_exec, split_char,
    split_char_exec, string_of, vviews,
};

verus! {

/// A `major.minor.patch` version found in tool output.
#[derive(Debug, Clone, Copy, PartialEq, Eq, PartialOrd, Ord, Structural)]
pub struct Version {
    pub major: u32,
    pub minor: u32,
    pub patch: u32,
}

/// The version a run of digits and dots spells, when its first two or three
/// dot-separated pieces are all numbers (a fourth piece and beyond is ignored).
pub open spec fn run_version(run: Seq<char>) -> Option<Version> {
    let ps = split_char(run, '.');
    if ps.len() == 2 && parse_u32(ps[0]) is Some && parse_u32(ps[1]) is Some {
        Some(Version { major: parse_u32(ps[0])->0, minor: parse_u32(ps[1])->0, patch: 0 })
    } else if ps.len() >= 3 && parse_u32(ps[0]) is Some && parse_u32(ps[1]) is Some && parse_u32(
        ps[2],
    ) is Some {
        Some(
            Version {
                major: parse_u32(ps[0])->0,
                minor: parse_u32(ps[1])->0,
                patch: parse_u32(ps[2])->0,
            },
        )
    } else {
        None
    }
}

/// Does `c` extend the current run (digits, and dots once the run started)?
pub open spec fn extends_run(c: char, run: Seq<char>) -> bool {
    is_digit(c) || (c == '.' && run.len() > 0)
}

/// Scanning `s` from `i` with the run `run` collected so far: the first
/// complete run that spells a version.
pub open spec fn scan_from(s: Seq<char>, i: int, run: Seq<char>) -> Option<Version>
    decreases s.len() - i,
{
    if i >= s.len() || i < 0 {
        run_version(run)
    } else if extends_run(s[i], run) {
        scan_from(s, i + 1, run.push(s[i]))
    } else if run.len() > 0 {
        match run_version(run) {
            Some(v) => Some(v),
            None => scan_from(s, i + 1, Seq::empty()),
        }
    } else {
        scan_from(s, i + 1, run)
    }
}

/// The first `major.minor[.patch]` run found anywhere in `s`.
pub open spec fn parse_spec(s: Seq<char>) -> Option<Version> {
    scan_from(s, 0, Seq::empty())
}

/// Version order: by major, then minor, then patch.
pub open spec fn version_lt(a: Version, b: Version) -> bool {
    a.major < b.major || (a.major == b.major && (a.minor < b.minor || (a.minor == b.minor
        && a.patch < b.patch)))
}

/// `major.minor.patch`.
pub open spec fn dotted_spec(v: Version) -> Seq<char> {
    dec(v.major as nat) + "."@ + dec(v.minor as nat) + "."@ + dec(v.patch as nat)
}

impl Version {
    /// Ordered before `other`?
    pub fn is_below(&self, other: &Version) -> (r: bool)
        ensures
            r == version_lt(*self, *other),
    {
        self.major < other.major || (self.major == other.major && (self.minor < other.minor || (
        self.minor == other.minor && self.patch < other.patch)))
    }

    /// `major.minor.patch`.
    pub fn dotted(&self) -> (r: String)
        ensures
            r@ == dotted_spec(*self),
    {
        let mut v: Vec<char> = Vec::new();
        let a = dec_exec(self.major as u64);
        extend_chars(&mut v, a.as_slice());
        v.push('.');
        let b = dec_exec(self.minor as u64);
        extend_chars(&mut v, b.as_slice());
        v.push('.');
        let c = dec_exec(self.patch as u64);
        extend_chars(&mut v, c.as_slice());
        proof {
            reveal_strlit(".");
        }
        assert(v@ =~= dotted_spec(*self));
        string_of(v.as_slice())
    }
}

fn try_run(run: &[char]) -> (r: Option<Version>)
    ensures
        r == run_version(run@),
{
    let parts = split_char_exec(run, '.');
    assert(vviews(parts@).len() == parts.len());
    if parts.len() < 2 {
        return None;
    }
    assert(vviews(parts@)[0] == parts@[0]@);
    assert(vviews(parts@)[1] == parts@[1]@);
    let maj = parse_u32_exec(parts[0].as_slice());
    let min = parse_u32_exec(parts[1].as_slice());
    if parts.len() == 2 {
        return match (maj, min) {
            (Some(a), Some(b)) => Some(Version { major: a, minor: b, patch: 0 }),
            _ => None,
        };
    }
    assert(vviews(parts@)[2] == parts@[2]@);
    let pat = parse_u32_exec(parts[2].as_slice());
    match (maj, min, pat) {
        (Some(a), Some(b), Some(c)) => Some(Version { major: a, minor: b, patch: c }),
        _ => None,
    }
}

/// Extracts the first `major.minor[.patch]` run found anywhere in `input`,
/// tolerating prefixes ("Quickshell 0.3.1 (revision ...)") and suffixes
/// ("5.3.15(1)-release", "0.4.1-42-gdeadbeef").
pub fn parse(input: &str) -> (r: Option<Version>)
    ensures
        r == parse_spec(input@),
{
    let s = chars_of(input);
    let mut run: Vec<char> = Vec::new();
    let mut i: usize = 0;
    while i < s.len()
        invariant
            i <= s.len(),
            s@ == input@,
            parse_spec(input@) == scan_from(s@, i as int, run@),
        decreases s.len() - i,
    {
        let c = s[i];
        if ('0' <= c && c <= '9') || (c == '.' && run.len() > 0) {
            run.push(c);
        } else if run.len() > 0 {
            match try_run(run.as_slice()) {
                Some(v) => {
                    return Some(v);
                },
                None => {
                    run = Vec::new();
                    assert(run@ =~= Seq::<char>::empty());
                },
            }
        }
        i += 1;
    }
    try_run(run.as_slice())
}


/// Versions are totally ordered: none is below itself, of two different
/// versions exactly one is below the other, and the order is transitive.
/// With equal major and minor, the smaller patch is below (so 0.3.0 is
/// below a 0.3.1 floor).
pub proof fn law_version_order_is_total(a: Version, b: Version, c: Version)
    ensures
        !version_lt(a, a),
        a != b ==> (version_lt(a, b) != version_lt(b, a)),
        version_lt(a, b) && version_lt(b, c) ==> version_lt(a, c),
        a.major == b.major && a.minor == b.minor && a.patch < b.patch ==> version_lt(a, b),
{
}

} // verus!
