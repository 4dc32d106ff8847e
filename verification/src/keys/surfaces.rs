//! Every surface component that upstream never bound is offered in the
//! catalog through a derived toggle.
use vstd::prelude::*;

use crate::keys::{
    catalog_actions, derived_toggle, derived_upto, has_plugin, insert_pk, last_of_id, sort_pk,
    ActionV,
};

verus! {

proof fn lemma_derived_upto_has(
    ms: Seq<(Seq<char>, Seq<Seq<char>>)>,
    ups: Seq<ActionV>,
    n: int,
    i: int,
)
    requires
        0 <= i < n <= ms.len(),
        last_of_id(ms, i),
        ms[i].1.contains("panel"@) || ms[i].1.contains("menu"@) || ms[i].1.contains("overlay"@),
        !has_plugin(ups, ms[i].0),
    ensures
        derived_upto(ms, ups, n).contains(derived_toggle(ms[i].0)),
    decreases n,
{
    let r = derived_upto(ms, ups, n - 1);
    if i == n - 1 {
        let d = r.push(derived_toggle(ms[i].0));
        assert(d[r.len() as int] == derived_toggle(ms[i].0));
    } else {
        lemma_derived_upto_has(ms, ups, n - 1, i);
        let k = choose|k: int| 0 <= k < r.len() && r[k] == derived_toggle(ms[i].0);
        let j = n - 1;
        if last_of_id(ms, j) && crate::keys::toggleable(ms[j].1) && !has_plugin(ups, ms[j].0) {
            assert(r.push(derived_toggle(ms[j].0))[k] == r[k]);
        }
    }
}

proof fn lemma_insert_pk_keeps(o: Seq<ActionV>, a: ActionV, x: ActionV)
    requires
        o.contains(x) || x == a,
    ensures
        insert_pk(o, a).contains(x),
    decreases o.len(),
{
    if o.len() == 0 {
        assert(insert_pk(o, a)[0] == a);
    } else if crate::keys::pk_lt(a, o[0]) {
        let r = seq![a] + o;
        if x == a {
            assert(r[0] == a);
        } else {
            let k = choose|k: int| 0 <= k < o.len() && o[k] == x;
            assert(r[k + 1] == x);
        }
    } else {
        let t = o.drop_first();
        let r = seq![o[0]] + insert_pk(t, a);
        if x == o[0] {
            assert(r[0] == x);
        } else {
            if x != a {
                let k = choose|k: int| 0 <= k < o.len() && o[k] == x;
                assert(t[k - 1] == x);
            }
            lemma_insert_pk_keeps(t, a, x);
            let m = choose|m: int| 0 <= m < insert_pk(t, a).len() && insert_pk(t, a)[m] == x;
            assert(r[m + 1] == x);
        }
    }
}

proof fn lemma_sort_pk_keeps(s: Seq<ActionV>, x: ActionV)
    requires
        s.contains(x),
    ensures
        sort_pk(s).contains(x),
    decreases s.len(),
{
    let k = choose|k: int| 0 <= k < s.len() && s[k] == x;
    if k == s.len() - 1 {
        lemma_insert_pk_keeps(sort_pk(s.drop_last()), s.last(), x);
    } else {
        assert(s.drop_last()[k] == x);
        lemma_sort_pk_keeps(s.drop_last(), x);
        lemma_insert_pk_keeps(sort_pk(s.drop_last()), s.last(), x);
    }
}

/// Every component whose manifest (the last one with its id) declares the
/// kind `panel`, `menu` or `overlay`, and that no upstream action belongs
/// to, is offered in the ordered catalog through its derived
/// `<id>:toggle` action.
pub proof fn law_unbound_surface_gets_toggle(
    ms: Seq<(Seq<char>, Seq<Seq<char>>)>,
    bindings_src: Seq<char>,
    i: int,
)
    requires
        0 <= i < ms.len(),
        last_of_id(ms, i),
        ms[i].1.contains("panel"@) || ms[i].1.contains("menu"@) || ms[i].1.contains("overlay"@),
        !has_plugin(crate::keys::actions_spec(crate::keys::binds_of(crate::text::lines(bindings_src))), ms[i].0),
    ensures
        sort_pk(catalog_actions(ms, bindings_src)).contains(derived_toggle(ms[i].0)),
{
    let ups = crate::keys::actions_spec(crate::keys::binds_of(crate::text::lines(bindings_src)));
    let d = derived_upto(ms, ups, ms.len() as int);
    lemma_derived_upto_has(ms, ups, ms.len() as int, i);
    let k = choose|k: int| 0 <= k < d.len() && d[k] == derived_toggle(ms[i].0);
    let all = ups + d;
    assert(all == catalog_actions(ms, bindings_src));
    assert(all[ups.len() + k] == derived_toggle(ms[i].0));
    lemma_sort_pk_keeps(all, derived_toggle(ms[i].0));
}

} // verus!
