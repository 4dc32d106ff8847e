//! The selection edits never reorder keys: the document's fields, and the
//! sections of its bar layout, keep their order; a field an edit has to
//! create is appended after them.
use vstd::prelude::*;

use crate::json::{get, has_key, key_index, lemma_set_at_get_same, lemma_with_entry_get, put_arr, set_at, with_entry, JsonV};
use crate::selection::{
    disable_ready, disable_spec, enable_ready, enable_spec, first_party, place_widget, scrub_section,
    section_arr, section_key, set_section, PluginKind, Section, BAR_ID,
};
use crate::shelljson::layout_fields;

verus! {

/// The field names of an object, in order (none for anything else).
pub open spec fn keys_of(v: JsonV) -> Seq<Seq<char>> {
    match v {
        JsonV::Object(fs) => fs.map_values(|f: (Seq<char>, JsonV)| f.0),
        _ => Seq::empty(),
    }
}

/// The section names of `bar.layout`, in order.
pub open spec fn layout_keys(d: JsonV) -> Seq<Seq<char>> {
    match get(d, "bar"@) {
        Some(b) => match get(b, "layout"@) {
            Some(l) => keys_of(l),
            None => Seq::empty(),
        },
        None => Seq::empty(),
    }
}

pub open spec fn is_prefix(a: Seq<Seq<char>>, b: Seq<Seq<char>>) -> bool {
    a.len() <= b.len() && b.take(a.len() as int) == a
}

/// `d2` keeps every key of `d`, top level and layout, in its order.
pub open spec fn order_kept(d: JsonV, d2: JsonV) -> bool {
    is_prefix(keys_of(d), keys_of(d2)) && is_prefix(layout_keys(d), layout_keys(d2))
}

proof fn lemma_prefix_trans(a: Seq<Seq<char>>, b: Seq<Seq<char>>, c: Seq<Seq<char>>)
    requires
        is_prefix(a, b),
        is_prefix(b, c),
    ensures
        is_prefix(a, c),
{
    assert(c.take(a.len() as int) =~= c.take(b.len() as int).take(a.len() as int));
}

proof fn lemma_order_trans(a: JsonV, b: JsonV, c: JsonV)
    requires
        order_kept(a, b),
        order_kept(b, c),
    ensures
        order_kept(a, c),
{
    lemma_prefix_trans(keys_of(a), keys_of(b), keys_of(c));
    lemma_prefix_trans(layout_keys(a), layout_keys(b), layout_keys(c));
}

proof fn lemma_order_refl(a: JsonV)
    ensures
        order_kept(a, a),
{
    assert(keys_of(a).take(keys_of(a).len() as int) =~= keys_of(a));
    assert(layout_keys(a).take(layout_keys(a).len() as int) =~= layout_keys(a));
}

proof fn lemma_keys_set_at(v: JsonV, k: Seq<char>, nv: JsonV)
    ensures
        keys_of(set_at(v, k, nv)) == keys_of(v),
{
    match v {
        JsonV::Object(fs) => match key_index(fs, k) {
            Some(i) => {
                crate::json::lemma_key_index_some(fs, k);
                let f2 = fs.update(i, (fs[i].0, nv));
                assert(f2.map_values(|f: (Seq<char>, JsonV)| f.0) =~= fs.map_values(|f: (Seq<char>, JsonV)| f.0));
            },
            None => {},
        },
        _ => {},
    }
}

proof fn lemma_keys_with_entry(v: JsonV, k: Seq<char>, x: JsonV)
    ensures
        is_prefix(keys_of(v), keys_of(with_entry(v, k, x))),
{
    match v {
        JsonV::Object(fs) => {
            if has_key(fs, k) {
            } else {
                let f2 = fs.push((k, x));
                assert(f2.map_values(|f: (Seq<char>, JsonV)| f.0).take(fs.len() as int) =~= fs.map_values(
                    |f: (Seq<char>, JsonV)| f.0,
                ));
            }
        },
        _ => {},
    }
    let a = keys_of(v);
    assert(keys_of(with_entry(v, k, x)).take(a.len() as int) == a || keys_of(with_entry(v, k, x)) == a);
    if keys_of(with_entry(v, k, x)) == a {
        assert(a.take(a.len() as int) =~= a);
    }
}

/// Writing a top-level array (not the bar) keeps the order everywhere.
proof fn lemma_order_put_arr(d: JsonV, k: Seq<char>, a: Seq<JsonV>)
    requires
        k != "bar"@,
    ensures
        order_kept(d, put_arr(d, k, a)),
{
    let w = with_entry(d, k, JsonV::Array(Seq::empty()));
    lemma_keys_with_entry(d, k, JsonV::Array(Seq::empty()));
    lemma_keys_set_at(w, k, JsonV::Array(a));
    if d is Object {
        crate::json::lemma_put_arr(d, k, a, "bar"@);
    }
    assert(layout_keys(put_arr(d, k, a)) == layout_keys(d));
    assert(layout_keys(d).take(layout_keys(d).len() as int) =~= layout_keys(d));
}

/// Rewriting one layout section keeps the order everywhere.
proof fn lemma_order_set_section(d: JsonV, key: Seq<char>, a: Seq<JsonV>)
    requires
        layout_fields(d) is Some,
    ensures
        order_kept(d, set_section(d, key, a)),
{
    let b = get(d, "bar"@)->0;
    let l = get(b, "layout"@)->0;
    let l2 = set_at(l, key, JsonV::Array(a));
    let b2 = set_at(b, "layout"@, l2);
    lemma_keys_set_at(d, "bar"@, b2);
    lemma_keys_set_at(b, "layout"@, l2);
    lemma_keys_set_at(l, key, JsonV::Array(a));
    lemma_set_at_get_same(d, "bar"@, b2);
    lemma_set_at_get_same(b, "layout"@, l2);
    assert(layout_keys(set_section(d, key, a)) == layout_keys(d));
    lemma_order_refl(d);
}

proof fn lemma_order_scrub(d: JsonV, key: Seq<char>, id: Seq<char>)
    ensures
        order_kept(d, scrub_section(d, key, id)),
{
    match section_arr(d, key) {
        Some(a) => lemma_order_set_section(d, key, crate::json::remove_str(a, id)),
        None => lemma_order_refl(d),
    }
}

proof fn lemma_order_place(d: JsonV, sec: Section, id: Seq<char>)
    ensures
        place_widget(d, sec, id) matches Ok(d2) ==> order_kept(d, d2),
{
    let key = section_key(sec);
    match get(d, "bar"@) {
        None => {},
        Some(b) => if b is Object {
            let b1 = with_entry(b, "layout"@, JsonV::Object(Seq::empty()));
            lemma_with_entry_get(b, "layout"@, JsonV::Object(Seq::empty()), "layout"@);
            let l = get(b1, "layout"@)->0;
            if l is Object {
                let l1 = with_entry(l, key, JsonV::Array(Seq::empty()));
                match get(l1, key)->0 {
                    JsonV::Array(a) => {
                        let l2 = set_at(l1, key, JsonV::Array(a.push(JsonV::Str(id))));
                        let b2 = set_at(b1, "layout"@, l2);
                        lemma_keys_set_at(d, "bar"@, b2);
                        lemma_set_at_get_same(d, "bar"@, b2);
                        lemma_set_at_get_same(b1, "layout"@, l2);
                        lemma_keys_set_at(l1, key, JsonV::Array(a.push(JsonV::Str(id))));
                        lemma_keys_with_entry(l, key, JsonV::Array(Seq::empty()));
                        assert(layout_keys(set_at(d, "bar"@, b2)) == keys_of(l2));
                        assert(get(b, "layout"@) is Some ==> get(b, "layout"@) == Some(l));
                        assert(is_prefix(layout_keys(d), keys_of(l2))) by {
                            if get(b, "layout"@) is None {
                                assert(layout_keys(d) =~= Seq::<Seq<char>>::empty());
                                assert(keys_of(l2).take(0) =~= Seq::<Seq<char>>::empty());
                            }
                        }
                        assert(keys_of(d).take(keys_of(d).len() as int) =~= keys_of(d));
                    },
                    _ => {},
                }
            }
        },
    }
}

/// Enabling or disabling a plugin never reorders keys: the document's
/// fields and its bar layout's sections keep their order, any field an edit
/// creates coming after them.
pub proof fn law_edits_keep_key_order(d: JsonV, id: Seq<char>, kind: PluginKind, sec: Section)
    ensures
        enable_ready(d, id, kind) ==> order_kept(d, enable_spec(d, id, kind, sec).0),
        disable_ready(d, id) ==> order_kept(d, disable_spec(d, id).0),
{
    crate::selection::lemma_key_names();
    lemma_order_refl(d);
    if id != BAR_ID@ {
        let fp = first_party(id);
        let dis = crate::json::arr_at(d, "disabledPlugins"@);
        let d1 = if fp {
            put_arr(d, "disabledPlugins"@, crate::json::remove_str(dis, id))
        } else {
            d
        };
        if fp {
            lemma_order_put_arr(d, "disabledPlugins"@, crate::json::remove_str(dis, id));
        }
        lemma_order_place(d1, sec, id);
        match place_widget(d1, sec, id) {
            Ok(d2) => lemma_order_trans(d, d1, d2),
            Err(_) => {},
        }
        let p1 = crate::json::arr_at(d1, "plugins"@);
        lemma_order_put_arr(d1, "plugins"@, p1.push(JsonV::Str(id)));
        lemma_order_trans(d, d1, put_arr(d1, "plugins"@, p1.push(JsonV::Str(id))));

        let s1 = scrub_section(d, "left"@, id);
        let s2 = scrub_section(s1, "center"@, id);
        let d3 = scrub_section(s2, "right"@, id);
        lemma_order_scrub(d, "left"@, id);
        lemma_order_scrub(s1, "center"@, id);
        lemma_order_scrub(s2, "right"@, id);
        lemma_order_trans(d, s1, s2);
        lemma_order_trans(d, s2, d3);
        let p = crate::json::arr_at(d3, "plugins"@);
        let d4 = put_arr(d3, "plugins"@, crate::json::remove_str(p, id));
        lemma_order_put_arr(d3, "plugins"@, crate::json::remove_str(p, id));
        lemma_order_trans(d, d3, d4);
        let dis4 = crate::json::arr_at(d4, "disabledPlugins"@);
        lemma_order_put_arr(d4, "disabledPlugins"@, crate::json::sorted_insert(dis4, id));
        lemma_order_trans(d, d4, put_arr(d4, "disabledPlugins"@, crate::json::sorted_insert(dis4, id)));
    }
}

} // verus!
