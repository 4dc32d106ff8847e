//! Bare `opb plugin edit`: an interactive editor over every plugin. Widgets
//! get a section (left, center, right) or off; everything else gets on or
//! off. The candidates and the "has the write landed?" test are computed
//! here; prompts, forwarding and polling run at the edge.
use vstd::prelude::*;

use crate::json::{Json, JsonV};
use crate::plugin_list::{placed_section, placed_section_spec, state_of, state_spec, Scanned};
use crate::shelljson::has_kind;
use crate::text::{chars_of, eq_str, seq_eq, sviews};

verus! {

/// One editable plugin: id, origin, displayed state, and whether it
/// occupies a bar slot.
#[derive(Debug)]
pub struct Candidate {
    pub id: String,
    pub origin: &'static str,
    pub state: String,
    pub is_widget: bool,
    pub kinds: Vec<String>,
}

/// The actions offered for widgets.
pub const WIDGET_ACTIONS: [&'static str; 4] = ["left", "center", "right", "off"];

/// The actions offered for everything else.
pub const TOGGLE_ACTIONS: [&'static str; 2] = ["on", "off"];

/// The state a candidate shows: a widget's section (or `off`), otherwise
/// the storage-rule state.
pub open spec fn candidate_state(d: JsonV, s: Scanned) -> Seq<char> {
    if sviews(s.info.kinds@).contains("bar-widget"@) {
        match placed_section_spec(d, s.info.id@) {
            Some(x) => x,
            None => "off"@,
        }
    } else {
        state_spec(d, sviews(s.info.kinds@), s.info.id@)
    }
}

pub open spec fn candidate_view(c: Candidate) -> (Seq<char>, Seq<char>, Seq<char>, bool, Seq<Seq<char>>) {
    (c.id@, c.origin@, c.state@, c.is_widget, sviews(c.kinds@))
}

pub open spec fn editable(s: Scanned) -> bool {
    !sviews(s.info.kinds@).contains("bar"@)
}

pub open spec fn candidate_for(d: JsonV, s: Scanned) -> (Seq<char>, Seq<char>, Seq<char>, bool, Seq<Seq<char>>) {
    (
        s.info.id@,
        s.origin@,
        candidate_state(d, s),
        sviews(s.info.kinds@).contains("bar-widget"@),
        sviews(s.info.kinds@),
    )
}

fn clone_strings(v: &Vec<String>) -> (r: Vec<String>)
    ensures
        sviews(r@) == sviews(v@),
{
    let mut out: Vec<String> = Vec::new();
    let mut i: usize = 0;
    while i < v.len()
        invariant
            i <= v.len(),
            sviews(out@) == sviews(v@).take(i as int),
        decreases v.len() - i,
    {
        let ghost before = sviews(out@);
        out.push(v[i].clone());
        assert(sviews(out@) =~= before.push(v@[i as int]@));
        assert(sviews(v@).take(i + 1) =~= sviews(v@).take(i as int).push(v@[i as int]@));
        i += 1;
    }
    assert(sviews(v@).take(v.len() as int) == sviews(v@));
    out
}

/// Every editable plugin (the bar itself excluded), in scan order.
pub fn candidates(doc: &Json, scanned: &[Scanned]) -> (r: Vec<Candidate>)
    ensures
        r@.map_values(|c: Candidate| candidate_view(c)) == scanned@.filter(|s: Scanned| editable(s)).map_values(
            |s: Scanned| candidate_for(doc@, s),
        ),
{
    let mut out: Vec<Candidate> = Vec::new();
    let mut i: usize = 0;
    proof {
        reveal(Seq::filter);
    }
    assert(scanned@.take(0).filter(|s: Scanned| editable(s)) =~= Seq::<Scanned>::empty());
    while i < scanned.len()
        invariant
            i <= scanned.len(),
            out@.map_values(|c: Candidate| candidate_view(c)) == scanned@.take(i as int).filter(
                |s: Scanned| editable(s),
            ).map_values(|s: Scanned| candidate_for(doc@, s)),
        decreases scanned.len() - i,
    {
        let s = &scanned[i];
        proof {
            reveal(Seq::filter);
            assert(scanned@.take(i + 1).drop_last() == scanned@.take(i as int));
            assert(scanned@.take(i + 1).last() == *s);
        }
        let ghost before = out@.map_values(|c: Candidate| candidate_view(c));
        let ghost fb = scanned@.take(i as int).filter(|s: Scanned| editable(s));
        if !has_kind(&s.info, "bar") {
            let is_widget = has_kind(&s.info, "bar-widget");
            let state = if is_widget {
                match placed_section(doc, s.info.id.as_str()) {
                    Some(x) => x.to_owned(),
                    None => "off".to_owned(),
                }
            } else {
                state_of(doc, s.info.kinds.as_slice(), s.info.id.as_str()).to_owned()
            };
            let c = Candidate {
                id: s.info.id.clone(),
                origin: s.origin,
                state,
                is_widget,
                kinds: clone_strings(&s.info.kinds),
            };
            assert(candidate_view(c) == candidate_for(doc@, *s));
            out.push(c);
            assert(fb.push(*s).map_values(|s: Scanned| candidate_for(doc@, s)) =~= fb.map_values(
                |s: Scanned| candidate_for(doc@, s),
            ).push(candidate_for(doc@, *s)));
            assert(out@.map_values(|c: Candidate| candidate_view(c)) =~= before.push(candidate_for(doc@, *s)));
        }
        i += 1;
    }
    assert(scanned@.take(scanned.len() as int) == scanned@);
    out
}

/// Does the document already show the outcome the action targets? The same
/// state computation as [`candidates`], so polling converges exactly when
/// the displayed state would flip.
pub open spec fn state_matches_spec(d: JsonV, is_widget: bool, kinds: Seq<Seq<char>>, id: Seq<char>, action: Seq<char>) -> bool {
    if is_widget {
        if action == "off"@ {
            placed_section_spec(d, id) is None
        } else {
            placed_section_spec(d, id) == Some(action)
        }
    } else {
        state_spec(d, kinds, id) == (if action == "on"@ {
            "on"@
        } else {
            "off"@
        })
    }
}

pub fn state_matches(doc: &Json, c: &Candidate, action: &str) -> (r: bool)
    ensures
        r == state_matches_spec(doc@, c.is_widget, sviews(c.kinds@), c.id@, action@),
{
    let ac = chars_of(action);
    if c.is_widget {
        let p = placed_section(doc, c.id.as_str());
        return if eq_str(ac.as_slice(), "off") {
            p.is_none()
        } else {
            match p {
                Some(x) => seq_eq(chars_of(x).as_slice(), ac.as_slice()),
                None => false,
            }
        };
    }
    let expected = if eq_str(ac.as_slice(), "on") {
        "on"
    } else {
        "off"
    };
    let st = state_of(doc, c.kinds.as_slice(), c.id.as_str());
    seq_eq(chars_of(st).as_slice(), chars_of(expected).as_slice())
}

} // verus!
