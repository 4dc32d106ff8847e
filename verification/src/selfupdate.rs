//! Self-update of the opb binary from its newest GitHub release. Whether a
//! release is newer, and what a checksum file says, are decided here;
//! downloading, verifying and installing run at the edge.
use vstd::prelude::*;

use crate::git::{is_semver, semver_after, semver_gt, semver_valid, version_text};
use crate::pin::normal_components;
use crate::text::{
    chars_of, extend_str, slice_vec, split_char, split_char_exec, string_of, ws_tokens, ws_tokens_exec, vviews,
};

verus! {

/// opb's own repository.
pub const OPB_REMOTE: &'static str = "https://github.com/Qurupeco01/omarchy-plugin-bridge";

/// The version of the running binary.
pub fn current_version() -> (r: &'static str)
    ensures
        r@ == "0.1.0"@,
{
    "0.1.0"
}

/// A newer release: its tag as published and its version text.
#[derive(Debug, Clone, PartialEq, Eq)]
pub struct Release {
    pub tag: String,
    pub version: String,
}

/// Why a release cannot be judged.
#[derive(Debug, Clone, PartialEq, Eq)]
pub enum SelfUpdateError {
    /// The release tag is not semver (the tag).
    NotSemver(String),
    /// The running version is not semver (the version).
    CurrentNotSemver(String),
    /// A checksum file without a token.
    EmptyChecksum,
    /// Prebuilt binaries exist for Linux only.
    NotLinux,
    /// The archive (its path) does not match the published checksum.
    ChecksumMismatch(String),
}

impl SelfUpdateError {
    pub fn message(&self) -> (r: String)
        ensures
            r@ == match self {
                SelfUpdateError::NotSemver(t) => "opb release tag "@ + t@ + " is not semver"@,
                SelfUpdateError::CurrentNotSemver(v) => "Cargo.toml version "@ + v@ + " is not semver"@,
                SelfUpdateError::EmptyChecksum => "empty checksum line"@,
                SelfUpdateError::NotLinux => "prebuilt opb binaries are Linux-only — build from source (see README)"@,
                SelfUpdateError::ChecksumMismatch(a) => "checksum mismatch for "@ + a@ + " — refusing a tampered binary"@,
            },
    {
        let mut v: Vec<char> = Vec::new();
        match self {
            SelfUpdateError::NotSemver(t) => {
                extend_str(&mut v, "opb release tag ");
                extend_str(&mut v, t.as_str());
                extend_str(&mut v, " is not semver");
            },
            SelfUpdateError::CurrentNotSemver(c) => {
                extend_str(&mut v, "Cargo.toml version ");
                extend_str(&mut v, c.as_str());
                extend_str(&mut v, " is not semver");
            },
            SelfUpdateError::EmptyChecksum => {
                extend_str(&mut v, "empty checksum line");
            },
            SelfUpdateError::NotLinux => {
                extend_str(&mut v, "prebuilt opb binaries are Linux-only — build from source (see README)");
            },
            SelfUpdateError::ChecksumMismatch(a) => {
                extend_str(&mut v, "checksum mismatch for ");
                extend_str(&mut v, a.as_str());
                extend_str(&mut v, " — refusing a tampered binary");
            },
        }
        string_of(v.as_slice())
    }
}

/// The release a tag names when it is newer than the running binary; the
/// tag may carry a `v` prefix.
pub fn newer_release(tag: &str) -> (r: Result<Option<Release>, SelfUpdateError>)
    ensures
        !semver_valid(version_text(tag@)) ==> (r matches Err(SelfUpdateError::NotSemver(t)) && t@ == tag@),
        semver_valid(version_text(tag@)) && !semver_valid("0.1.0"@) ==> (r matches Err(
            SelfUpdateError::CurrentNotSemver(v),
        ) && v@ == "0.1.0"@),
        semver_valid(version_text(tag@)) && semver_valid("0.1.0"@) ==> match r {
            Ok(Some(rel)) => semver_after(version_text(tag@), "0.1.0"@) && rel.tag@ == tag@ && rel.version@
                == version_text(tag@),
            Ok(None) => !semver_after(version_text(tag@), "0.1.0"@),
            Err(_) => false,
        },
{
    let c = chars_of(tag);
    let v: Vec<char> = if c.len() > 0 && c[0] == 'v' {
        slice_vec(c.as_slice(), 1, c.len())
    } else {
        slice_vec(c.as_slice(), 0, c.len())
    };
    assert(v@ =~= version_text(tag@));
    let vs = string_of(v.as_slice());
    if !is_semver(vs.as_str()) {
        return Err(SelfUpdateError::NotSemver(tag.to_owned()));
    }
    let cur = current_version();
    if !is_semver(cur) {
        return Err(SelfUpdateError::CurrentNotSemver(cur.to_owned()));
    }
    if semver_gt(vs.as_str(), cur) {
        Ok(Some(Release { tag: tag.to_owned(), version: vs }))
    } else {
        Ok(None)
    }
}

/// The first whitespace-delimited token of a `sha256sum` line.
pub fn first_token(s: &str) -> (r: Result<String, SelfUpdateError>)
    ensures
        ws_tokens(s@).len() > 0 ==> (r matches Ok(t) && t@ == ws_tokens(s@)[0]),
        ws_tokens(s@).len() == 0 ==> r == Err::<String, SelfUpdateError>(SelfUpdateError::EmptyChecksum),
{
    let c = chars_of(s);
    let tk = ws_tokens_exec(c.as_slice());
    if tk.len() == 0 {
        return Err(SelfUpdateError::EmptyChecksum);
    }
    assert(vviews(tk@)[0] == tk@[0]@);
    Ok(string_of(tk[0].as_slice()))
}

/// The prebuilt asset triple: only Linux builds are published.
pub fn target_triple(os: &str, arch: &str) -> (r: Result<String, SelfUpdateError>)
    ensures
        os@ == "linux"@ ==> (r matches Ok(t) && t@ == arch@ + "-unknown-linux-gnu"@),
        os@ != "linux"@ ==> r == Err::<String, SelfUpdateError>(SelfUpdateError::NotLinux),
{
    let oc = chars_of(os);
    if !crate::text::eq_str(oc.as_slice(), "linux") {
        return Err(SelfUpdateError::NotLinux);
    }
    let mut v: Vec<char> = Vec::new();
    extend_str(&mut v, arch);
    extend_str(&mut v, "-unknown-linux-gnu");
    Ok(string_of(v.as_slice()))
}

/// The release tarball's file name.
pub fn asset_name(release: &Release, target: &str) -> (r: String)
    ensures
        r@ == "omarchy-plugin-bridge-"@ + release.version@ + "-"@ + target@ + ".tar.gz"@,
{
    let mut v: Vec<char> = Vec::new();
    extend_str(&mut v, "omarchy-plugin-bridge-");
    extend_str(&mut v, release.version.as_str());
    extend_str(&mut v, "-");
    extend_str(&mut v, target);
    extend_str(&mut v, ".tar.gz");
    string_of(v.as_slice())
}

/// Where a release asset is downloaded from.
pub fn asset_url(tag: &str, name: &str) -> (r: String)
    ensures
        r@ == OPB_REMOTE@ + "/releases/download/"@ + tag@ + "/"@ + name@,
{
    let mut v: Vec<char> = Vec::new();
    extend_str(&mut v, OPB_REMOTE);
    extend_str(&mut v, "/releases/download/");
    extend_str(&mut v, tag);
    extend_str(&mut v, "/");
    extend_str(&mut v, name);
    string_of(v.as_slice())
}

/// The downloaded archive is accepted only when the first token of the
/// published checksum file equals the first token of `sha256sum`'s output.
pub fn verify_checksum(published: &str, computed: &str, archive: &str) -> (r: Result<(), SelfUpdateError>)
    ensures
        r is Ok <==> (ws_tokens(published@).len() > 0 && ws_tokens(computed@).len() > 0
            && ws_tokens(published@)[0] == ws_tokens(computed@)[0]),
        (ws_tokens(published@).len() == 0 || ws_tokens(computed@).len() == 0)
            ==> r == Err::<(), SelfUpdateError>(SelfUpdateError::EmptyChecksum),
        (ws_tokens(published@).len() > 0 && ws_tokens(computed@).len() > 0 && ws_tokens(published@)[0]
            != ws_tokens(computed@)[0]) ==> (r matches Err(SelfUpdateError::ChecksumMismatch(a)) && a@ == archive@),
{
    let expected = match first_token(published) {
        Ok(t) => t,
        Err(e) => return Err(e),
    };
    let actual = match first_token(computed) {
        Ok(t) => t,
        Err(e) => return Err(e),
    };
    let a = chars_of(expected.as_str());
    let b = chars_of(actual.as_str());
    if crate::text::seq_eq(a.as_slice(), b.as_slice()) {
        Ok(())
    } else {
        Err(SelfUpdateError::ChecksumMismatch(archive.to_owned()))
    }
}

/// A binary under `/usr/bin` (compared by path components) belongs to the
/// package manager, which updates it instead.
pub open spec fn package_managed_spec(exe: Seq<char>) -> bool {
    let cs = normal_components(split_char(exe, '/'));
    &&& exe.len() > 0 && exe[0] == '/'
    &&& cs.len() >= 2
    &&& cs[0] == "usr"@
    &&& cs[1] == "bin"@
}

pub fn package_managed(exe: &str) -> (r: bool)
    ensures
        r == package_managed_spec(exe@),
{
    let pc = chars_of(exe);
    if pc.len() == 0 || pc[0] != '/' {
        return false;
    }
    let ps = split_char_exec(pc.as_slice(), '/');
    let ghost pv = vviews(ps@);
    let mut cs: Vec<Vec<char>> = Vec::new();
    let mut i: usize = 0;
    assert(pv.take(0) =~= Seq::<Seq<char>>::empty());
    while i < ps.len()
        invariant
            i <= ps.len(),
            pv == vviews(ps@),
            vviews(cs@) == normal_components(pv.take(i as int)),
        decreases ps.len() - i,
    {
        assert(pv.take(i + 1).drop_last() == pv.take(i as int));
        assert(pv.take(i + 1).last() == ps@[i as int]@);
        let c = &ps[i];
        if !(c.len() == 0 || crate::text::eq_str(c.as_slice(), ".")) {
            let ghost before = vviews(cs@);
            cs.push(slice_vec(c.as_slice(), 0, c.len()));
            assert(c@.subrange(0, c@.len() as int) =~= c@);
            assert(vviews(cs@) =~= before.push(c@));
        }
        i += 1;
    }
    assert(pv.take(ps.len() as int) == pv);
    cs.len() >= 2 && crate::text::eq_str(cs[0].as_slice(), "usr") && crate::text::eq_str(cs[1].as_slice(), "bin")
}

} // verus!

