//! Check framework: results in, rendered report and exit code out.
use vstd::prelude::*;

use crate::text::{chars_of, extend_chars, extend_str, pad_right, push_padded, string_of};

verus! {

/// The verdict of one check, with its detail where there is one.
#[derive(Debug, Clone, PartialEq, Eq)]
pub enum Status {
    Pass(Option<String>),
    Info(String),
    Warn(String),
    Fail(String),
}

/// One named check and its verdict.
#[derive(Debug, Clone, PartialEq, Eq)]
pub struct CheckResult {
    pub name: &'static str,
    pub status: Status,
}

pub open spec fn label_spec(s: Status) -> Seq<char> {
    match s {
        Status::Pass(_) => "PASS"@,
        Status::Info(_) => "INFO"@,
        Status::Warn(_) => "WARN"@,
        Status::Fail(_) => "FAIL"@,
    }
}

pub open spec fn detail_spec(s: Status) -> Option<Seq<char>> {
    match s {
        Status::Pass(d) => match d {
            Some(x) => Some(x@),
            None => None,
        },
        Status::Info(d) => Some(d@),
        Status::Warn(d) => Some(d@),
        Status::Fail(d) => Some(d@),
    }
}

impl CheckResult {
    pub fn pass(name: &'static str) -> (r: Self)
        ensures
            r.name == name,
            r.status == Status::Pass(None),
    {
        CheckResult { name, status: Status::Pass(None) }
    }

    /// A pass that carries what was found.
    pub fn pass_info(name: &'static str, detail: &str) -> (r: Self)
        ensures
            r.name == name,
            r.status matches Status::Pass(Some(d)) && d@ == detail@,
    {
        CheckResult { name, status: Status::Pass(Some(detail.to_owned())) }
    }

    /// Neither good nor bad: a fact worth showing.
    pub fn info(name: &'static str, why: &str) -> (r: Self)
        ensures
            r.name == name,
            r.status matches Status::Info(d) && d@ == why@,
    {
        CheckResult { name, status: Status::Info(why.to_owned()) }
    }

    pub fn warn(name: &'static str, why: &str) -> (r: Self)
        ensures
            r.name == name,
            r.status matches Status::Warn(d) && d@ == why@,
    {
        CheckResult { name, status: Status::Warn(why.to_owned()) }
    }

    pub fn fail(name: &'static str, why: &str) -> (r: Self)
        ensures
            r.name == name,
            r.status matches Status::Fail(d) && d@ == why@,
    {
        CheckResult { name, status: Status::Fail(why.to_owned()) }
    }

    fn label(&self) -> (r: &'static str)
        ensures
            r@ == label_spec(self.status),
    {
        match self.status {
            Status::Pass(_) => "PASS",
            Status::Info(_) => "INFO",
            Status::Warn(_) => "WARN",
            Status::Fail(_) => "FAIL",
        }
    }

    fn detail(&self) -> (r: Option<&str>)
        ensures
            match r {
                Some(d) => detail_spec(self.status) == Some(d@),
                None => detail_spec(self.status) is None,
            },
    {
        match &self.status {
            Status::Pass(d) => match d {
                Some(x) => Some(x.as_str()),
                None => None,
            },
            Status::Info(d) => Some(d.as_str()),
            Status::Warn(d) => Some(d.as_str()),
            Status::Fail(d) => Some(d.as_str()),
        }
    }
}

/// The checks of one command, in order.
#[derive(Debug, PartialEq, Eq)]
pub struct Report(pub Vec<CheckResult>);

impl Default for Report {
    fn default() -> (r: Self)
        ensures
            r.0@.len() == 0,
    {
        Report(Vec::new())
    }
}

/// Does any check fail?
pub open spec fn any_fail(cs: Seq<CheckResult>) -> bool {
    exists|i: int| 0 <= i < cs.len() && cs[i].status is Fail
}

/// The widest check name, in bytes as `str::len` counts (padding then
/// counts characters, as `format!` does).
pub open spec fn name_width(cs: Seq<CheckResult>) -> nat
    decreases cs.len(),
{
    if cs.len() == 0 {
        0
    } else {
        let w = name_width(cs.drop_last());
        let n = crate::text::byte_len(cs.last().name@);
        if n > w {
            n
        } else {
            w
        }
    }
}

/// `LABEL  name[padded]  detail` and a newline.
pub open spec fn render_line(c: CheckResult, w: nat) -> Seq<char> {
    label_spec(c.status) + "  "@ + pad_right(c.name@, w) + match detail_spec(c.status) {
        Some(d) => "  "@ + d,
        None => Seq::empty(),
    } + "\n"@
}

pub open spec fn render_lines(cs: Seq<CheckResult>, w: nat) -> Seq<char>
    decreases cs.len(),
{
    if cs.len() == 0 {
        Seq::empty()
    } else {
        render_lines(cs.drop_last(), w) + render_line(cs.last(), w)
    }
}

pub open spec fn render_spec(cs: Seq<CheckResult>) -> Seq<char> {
    render_lines(cs, name_width(cs))
}

impl Report {
    /// `exit::OK` when no check fails (warnings allowed), else `exit::FAIL`.
    pub fn exit_code(&self) -> (r: u8)
        ensures
            r == if any_fail(self.0@) {
                crate::exit::FAIL
            } else {
                crate::exit::OK
            },
    {
        let mut i: usize = 0;
        while i < self.0.len()
            invariant
                i <= self.0.len(),
                forall|j: int| 0 <= j < i ==> !(self.0@[j].status is Fail),
            decreases self.0.len() - i,
        {
            if let Status::Fail(_) = self.0[i].status {
                return crate::exit::FAIL;
            }
            i += 1;
        }
        crate::exit::OK
    }

    /// An aligned table, one line per check.
    pub fn render(&self) -> (r: String)
        ensures
            r@ == render_spec(self.0@),
    {
        let cs = &self.0;
        let mut width: usize = 0;
        let mut i: usize = 0;
        while i < cs.len()
            invariant
                i <= cs.len(),
                width == name_width(cs@.take(i as int)),
            decreases cs.len() - i,
        {
            assert(cs@.take(i as int + 1).drop_last() == cs@.take(i as int));
            let n = crate::text::byte_len_exec(cs[i].name);
            if n > width {
                width = n;
            }
            i += 1;
        }
        assert(cs@.take(cs.len() as int) == cs@);
        let mut out: Vec<char> = Vec::new();
        let mut i: usize = 0;
        while i < cs.len()
            invariant
                i <= cs.len(),
                width == name_width(cs@),
                out@ == render_lines(cs@.take(i as int), width as nat),
            decreases cs.len() - i,
        {
            let c = &cs[i];
            let ghost before = out@;
            extend_str(&mut out, c.label());
            extend_str(&mut out, "  ");
            let name = chars_of(c.name);
            push_padded(&mut out, name.as_slice(), width);
            match c.detail() {
                Some(d) => {
                    extend_str(&mut out, "  ");
                    extend_str(&mut out, d);
                },
                None => {},
            }
            extend_str(&mut out, "\n");
            assert(cs@.take(i as int + 1).drop_last() == cs@.take(i as int));
            assert(out@ == before + render_line(cs@[i as int], width as nat));
            i += 1;
        }
        assert(cs@.take(cs.len() as int) == cs@);
        string_of(out.as_slice())
    }
}


/// What a check shows: its name, its label and its detail.
pub open spec fn check_view(c: CheckResult) -> (Seq<char>, Seq<char>, Option<Seq<char>>) {
    (c.name@, label_spec(c.status), detail_spec(c.status))
}

pub open spec fn checks_view(cs: Seq<CheckResult>) -> Seq<(Seq<char>, Seq<char>, Option<Seq<char>>)> {
    cs.map_values(|c: CheckResult| check_view(c))
}

/// The four labels are distinct.
pub proof fn lemma_labels_distinct()
    ensures
        "PASS"@ != "INFO"@,
        "PASS"@ != "WARN"@,
        "PASS"@ != "FAIL"@,
        "INFO"@ != "WARN"@,
        "INFO"@ != "FAIL"@,
        "WARN"@ != "FAIL"@,
{
    reveal_strlit("PASS");
    reveal_strlit("INFO");
    reveal_strlit("WARN");
    reveal_strlit("FAIL");
    assert("PASS"@[0] != "INFO"@[0]);
    assert("PASS"@[0] != "WARN"@[0]);
    assert("PASS"@[0] != "FAIL"@[0]);
    assert("INFO"@[0] != "WARN"@[0]);
    assert("INFO"@[0] != "FAIL"@[0]);
    assert("WARN"@[0] != "FAIL"@[0]);
}

} // verus!
