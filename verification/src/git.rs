//! What opb reads out of git's answers: the newest release tag of an
//! `ls-remote --tags` listing and the entries of a `log --oneline`. Running
//! git happens at the edge. Release ordering is semver's, through the
//! `semver` crate.
use vstd::prelude::*;

use crate::text::{
    chars_of, ends_with, ends_with_str, find_spec, find_str, lines, lines_exec, slice_vec,
    split_char, split_char_exec, string_of, sviews, trim, trim_exec, vviews,
};

verus! {

/// The upstream repository.
pub const REMOTE: &'static str = "https://github.com/basecamp/omarchy";

/// The text parses as a semantic version (`semver::Version::parse` succeeds).
pub uninterp spec fn semver_valid(s: Seq<char>) -> bool;

/// Version `a` orders after version `b` in semver's total order on
/// versions (major, minor, patch, pre-release, then build metadata).
pub uninterp spec fn semver_after(a: Seq<char>, b: Seq<char>) -> bool;

/// Whether `semver::Version::parse(s)` succeeds.
#[verifier::external_body]
pub(crate) fn is_semver(s: &str) -> (r: bool)
    ensures
        r == semver_valid(s@),
{
    semver::Version::parse(s).is_ok()
}

/// `semver::Version::parse(a) > semver::Version::parse(b)` for two texts
/// that both parse.
#[verifier::external_body]
pub(crate) fn semver_gt(a: &str, b: &str) -> (r: bool)
    requires
        semver_valid(a@),
        semver_valid(b@),
    ensures
        r == semver_after(a@, b@),
{
    match (semver::Version::parse(a), semver::Version::parse(b)) {
        (Ok(x), Ok(y)) => x > y,
        _ => false,
    }
}

/// Why no tag could be picked.
#[derive(Debug, Clone, PartialEq, Eq)]
pub enum GitError {
    NoSemverTags,
}

impl GitError {
    pub fn message(&self) -> (r: String)
        ensures
            r@ == "no semver release tags found at "@ + REMOTE@,
    {
        let mut v: Vec<char> = Vec::new();
        crate::text::extend_str(&mut v, "no semver release tags found at ");
        crate::text::extend_str(&mut v, REMOTE);
        string_of(v.as_slice())
    }
}

/// The tag name of an `ls-remote --tags` line (`sha<TAB>refs/tags/<name>`);
/// dereferenced `^{}` lines and lines without a tab name none.
pub open spec fn tag_of_line(line: Seq<char>) -> Option<Seq<char>> {
    match find_spec(line, "\t"@) {
        None => None,
        Some(i) => {
            let refname = line.skip(i + 1);
            if ends_with(refname, "^{}"@) {
                None
            } else {
                Some(split_char(refname, '/').last())
            }
        },
    }
}

/// The version text of a tag: a leading `v` dropped.
pub open spec fn version_text(name: Seq<char>) -> Seq<char> {
    if name.len() > 0 && name[0] == 'v' {
        name.drop_first()
    } else {
        name
    }
}

/// The highest semver tag so far (its version text and name); a later tag
/// replaces it only when strictly higher.
pub open spec fn best_tag(ls: Seq<Seq<char>>) -> Option<(Seq<char>, Seq<char>)>
    decreases ls.len(),
{
    if ls.len() == 0 {
        None
    } else {
        let b = best_tag(ls.drop_last());
        match tag_of_line(ls.last()) {
            Some(n) => {
                let t = version_text(n);
                if semver_valid(t) && (b is None || semver_after(t, (b->0).0)) {
                    Some((t, n))
                } else {
                    b
                }
            },
            None => b,
        }
    }
}

proof fn lemma_best_valid(ls: Seq<Seq<char>>)
    ensures
        best_tag(ls) matches Some(p) ==> semver_valid(p.0),
    decreases ls.len(),
{
    if ls.len() > 0 {
        lemma_best_valid(ls.drop_last());
    }
}

fn tag_of(line: &[char]) -> (r: Option<Vec<char>>)
    ensures
        match r {
            Some(n) => tag_of_line(line@) == Some(n@),
            None => tag_of_line(line@) is None,
        },
{
    let i = match find_str(line, "\t") {
        Some(i) => i,
        None => {
            return None;
        },
    };
    proof {
        reveal_strlit("\t");
    }
    let refname = slice_vec(line, i + 1, line.len());
    assert(refname@ == line@.skip(i + 1));
    if ends_with_str(refname.as_slice(), "^{}") {
        return None;
    }
    let parts = split_char_exec(refname.as_slice(), '/');
    proof {
        crate::text::lemma_split_nonempty(refname@, '/');
    }
    assert(vviews(parts@).len() == parts.len());
    let last = &parts[parts.len() - 1];
    assert(vviews(parts@).last() == last@);
    Some(slice_vec(last.as_slice(), 0, last.len()))
}

/// The highest semver release tag of an `ls-remote --tags` listing, `v`
/// prefixes tolerated, non-semver tags and dereferenced lines ignored.
pub fn parse_latest_tag(output: &str) -> (r: Result<String, GitError>)
    ensures
        match best_tag(lines(output@)) {
            Some(p) => r matches Ok(s) && s@ == p.1,
            None => r == Err::<String, GitError>(GitError::NoSemverTags),
        },
{
    let c = chars_of(output);
    let ls = lines_exec(c.as_slice());
    let ghost lv = vviews(ls@);
    let mut best: Option<(String, String)> = None;
    let mut i: usize = 0;
    assert(lv.take(0) =~= Seq::<Seq<char>>::empty());
    while i < ls.len()
        invariant
            i <= ls.len(),
            lv == vviews(ls@),
            lv == lines(output@),
            match best {
                Some(p) => best_tag(lv.take(i as int)) == Some((p.0@, p.1@)),
                None => best_tag(lv.take(i as int)) is None,
            },
        decreases ls.len() - i,
    {
        assert(lv.take(i + 1).drop_last() == lv.take(i as int));
        assert(lv.take(i + 1).last() == ls@[i as int]@);
        proof {
            lemma_best_valid(lv.take(i as int));
        }
        match tag_of(ls[i].as_slice()) {
            Some(n) => {
                let t: Vec<char> = if n.len() > 0 && n[0] == 'v' {
                    slice_vec(n.as_slice(), 1, n.len())
                } else {
                    slice_vec(n.as_slice(), 0, n.len())
                };
                assert(t@ =~= version_text(n@));
                let ts = string_of(t.as_slice());
                if is_semver(ts.as_str()) {
                    let higher = match &best {
                        None => true,
                        Some(b) => semver_gt(ts.as_str(), b.0.as_str()),
                    };
                    if higher {
                        best = Some((ts, string_of(n.as_slice())));
                    }
                }
            },
            None => {},
        }
        i += 1;
    }
    assert(lv.take(ls.len() as int) == lv);
    match best {
        Some((_, name)) => Ok(name),
        None => Err(GitError::NoSemverTags),
    }
}

/// The entries of `git log --oneline` output (trimmed; none when empty).
pub open spec fn log_entries_spec(stdout: Seq<char>) -> Seq<Seq<char>> {
    let t = trim(stdout);
    if t.len() == 0 {
        Seq::empty()
    } else {
        lines(t)
    }
}

pub fn log_entries(stdout: &str) -> (r: Vec<String>)
    ensures
        sviews(r@) == log_entries_spec(stdout@),
{
    let c = chars_of(stdout);
    let t = trim_exec(c.as_slice());
    let mut out: Vec<String> = Vec::new();
    if t.len() == 0 {
        assert(sviews(out@) =~= Seq::<Seq<char>>::empty());
        return out;
    }
    let ls = lines_exec(t.as_slice());
    let mut i: usize = 0;
    while i < ls.len()
        invariant
            i <= ls.len(),
            sviews(out@) == vviews(ls@).take(i as int),
        decreases ls.len() - i,
    {
        let ghost b = sviews(out@);
        out.push(string_of(ls[i].as_slice()));
        assert(sviews(out@) =~= b.push(ls@[i as int]@));
        assert(vviews(ls@).take(i + 1) =~= vviews(ls@).take(i as int).push(ls@[i as int]@));
        i += 1;
    }
    assert(vviews(ls@).take(ls.len() as int) == vviews(ls@));
    out
}

} // verus!
