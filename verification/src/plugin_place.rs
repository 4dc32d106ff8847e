//! Bare `opb plugin place`: interactive bar placement. The placeable set is
//! computed here; the prompts and the forwarded `plugin enable` run at the
//! edge.
use vstd::prelude::*;

use crate::json::Json;
use crate::plugin_list::{placed_in_layout, Scanned};
use crate::shelljson::has_kind;
use crate::text::{chars_of, sviews};

verus! {

/// One placeable widget: id and where its manifest lives.
#[derive(Debug)]
pub struct Candidate {
    pub id: String,
    pub origin: &'static str,
}

/// The bar sections a widget can be placed in.
pub const SECTIONS: [&'static str; 3] = ["left", "center", "right"];

/// Is this scanned manifest a bar widget that occupies no layout slot?
pub open spec fn placeable(d: crate::json::JsonV, s: Scanned) -> bool {
    sviews(s.info.kinds@).contains("bar-widget"@) && !placed_in_layout(d, s.info.id@)
}

/// Bar widgets not occupying any layout slot, in scan order.
pub fn unplaced_widgets(doc: &Json, scanned: &[Scanned]) -> (r: Vec<Candidate>)
    ensures
        r@.map_values(|c: Candidate| (c.id@, c.origin@)) == scanned@.filter(|s: Scanned| placeable(doc@, s)).map_values(
            |s: Scanned| (s.info.id@, s.origin@),
        ),
{
    let mut out: Vec<Candidate> = Vec::new();
    let mut i: usize = 0;
    proof {
        reveal(Seq::filter);
    }
    assert(scanned@.take(0).filter(|s: Scanned| placeable(doc@, s)) =~= Seq::<Scanned>::empty());
    while i < scanned.len()
        invariant
            i <= scanned.len(),
            out@.map_values(|c: Candidate| (c.id@, c.origin@)) == scanned@.take(i as int).filter(
                |s: Scanned| placeable(doc@, s),
            ).map_values(|s: Scanned| (s.info.id@, s.origin@)),
        decreases scanned.len() - i,
    {
        let s = &scanned[i];
        proof {
            reveal(Seq::filter);
            assert(scanned@.take(i + 1).drop_last() == scanned@.take(i as int));
            assert(scanned@.take(i + 1).last() == *s);
        }
        let ghost before = out@.map_values(|c: Candidate| (c.id@, c.origin@));
        let ghost fb = scanned@.take(i as int).filter(|s: Scanned| placeable(doc@, s));
        let idc = chars_of(s.info.id.as_str());
        let widget = has_kind(&s.info, "bar-widget");
        if widget && !crate::plugin_list::placed_in_layout_exec(doc, idc.as_slice()) {
            out.push(Candidate { id: s.info.id.clone(), origin: s.origin });
            assert(fb.push(*s).map_values(|s: Scanned| (s.info.id@, s.origin@)) =~= fb.map_values(
                |s: Scanned| (s.info.id@, s.origin@),
            ).push((s.info.id@, s.origin@)));
            assert(out@.map_values(|c: Candidate| (c.id@, c.origin@)) =~= before.push((s.info.id@, s.origin@)));
        }
        i += 1;
    }
    assert(scanned@.take(scanned.len() as int) == scanned@);
    out
}

} // verus!
