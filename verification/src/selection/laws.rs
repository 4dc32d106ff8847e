//! What the selection edits promise together, on the generated all-off
//! document: enabling then disabling lands back on the document it started
//! from, and repeating an edit changes nothing further.
use vstd::prelude::*;

use crate::json::{
    arr_at, get, is_first_key, is_first_str, key_index, lemma_key_index, lemma_sorted_insert,
    lemma_str_index, put_arr, remove_str, set_at, sorted_insert, sorted_pos, str_below, str_index,
    with_entry, has_key, JsonV,
};
use crate::selection::{
    disable_ready, disable_spec, enable_ready, enable_spec, first_party, layout_section_of,
    place_widget, scrub_section, section_arr, section_has, section_key, set_section, Outcome,
    PluginKind, Section, BAR_ID,
};
use crate::shelljson::{all_off_doc, layout_fields, str_array};
use crate::text::{lemma_lex_asym, lemma_lex_irrefl, lex_lt, sorted_strict};

verus! {

/// A document of the generated shape: version, the bar (its id and the
/// three layout sections), `disabledPlugins` and `plugins`.
pub open spec fn shaped(
    v: JsonV,
    l: Seq<JsonV>,
    c: Seq<JsonV>,
    r: Seq<JsonV>,
    dis: Seq<JsonV>,
    pl: Seq<JsonV>,
) -> JsonV {
    JsonV::Object(
        seq![
            ("version"@, v),
            ("bar"@, bar_obj(l, c, r)),
            ("disabledPlugins"@, JsonV::Array(dis)),
            ("plugins"@, JsonV::Array(pl)),
        ],
    )
}

pub open spec fn layout_obj(l: Seq<JsonV>, c: Seq<JsonV>, r: Seq<JsonV>) -> JsonV {
    JsonV::Object(seq![("left"@, JsonV::Array(l)), ("center"@, JsonV::Array(c)), ("right"@, JsonV::Array(r))])
}

pub open spec fn bar_obj(l: Seq<JsonV>, c: Seq<JsonV>, r: Seq<JsonV>) -> JsonV {
    JsonV::Object(seq![("id"@, JsonV::Str("omarchy.bar"@)), ("layout"@, layout_obj(l, c, r))])
}

proof fn lemma_names()
    ensures
        "version"@ != "bar"@,
        "version"@ != "disabledPlugins"@,
        "version"@ != "plugins"@,
        "bar"@ != "disabledPlugins"@,
        "bar"@ != "plugins"@,
        "disabledPlugins"@ != "plugins"@,
        "id"@ != "layout"@,
        "left"@ != "center"@,
        "left"@ != "right"@,
        "center"@ != "right"@,
{
    reveal_strlit("version");
    reveal_strlit("bar");
    reveal_strlit("disabledPlugins");
    reveal_strlit("plugins");
    reveal_strlit("id");
    reveal_strlit("layout");
    reveal_strlit("left");
    reveal_strlit("center");
    reveal_strlit("right");
    assert("version"@[0] != "plugins"@[0]);
    assert("version"@.len() != "bar"@.len());
    assert("version"@.len() != "disabledPlugins"@.len());
    assert("bar"@.len() != "disabledPlugins"@.len());
    assert("bar"@.len() != "plugins"@.len());
    assert("disabledPlugins"@.len() != "plugins"@.len());
    assert("id"@.len() != "layout"@.len());
    assert("left"@.len() != "center"@.len());
    assert("left"@.len() != "right"@.len());
    assert("center"@.len() != "right"@.len());
}

proof fn lemma_shape_keys(v: JsonV, l: Seq<JsonV>, c: Seq<JsonV>, r: Seq<JsonV>, dis: Seq<JsonV>, pl: Seq<JsonV>)
    ensures
        get(shaped(v, l, c, r, dis, pl), "bar"@) == Some(bar_obj(l, c, r)),
        get(shaped(v, l, c, r, dis, pl), "disabledPlugins"@) == Some(JsonV::Array(dis)),
        get(shaped(v, l, c, r, dis, pl), "plugins"@) == Some(JsonV::Array(pl)),
        key_index(shaped(v, l, c, r, dis, pl)->Object_0, "bar"@) == Some(1int),
        key_index(shaped(v, l, c, r, dis, pl)->Object_0, "disabledPlugins"@) == Some(2int),
        key_index(shaped(v, l, c, r, dis, pl)->Object_0, "plugins"@) == Some(3int),
        key_index(bar_obj(l, c, r)->Object_0, "layout"@) == Some(1int),
        get(bar_obj(l, c, r), "layout"@) == Some(layout_obj(l, c, r)),
        key_index(layout_obj(l, c, r)->Object_0, "left"@) == Some(0int),
        key_index(layout_obj(l, c, r)->Object_0, "center"@) == Some(1int),
        key_index(layout_obj(l, c, r)->Object_0, "right"@) == Some(2int),
        layout_fields(shaped(v, l, c, r, dis, pl)) == Some(layout_obj(l, c, r)->Object_0),
        section_arr(shaped(v, l, c, r, dis, pl), "left"@) == Some(l),
        section_arr(shaped(v, l, c, r, dis, pl), "center"@) == Some(c),
        section_arr(shaped(v, l, c, r, dis, pl), "right"@) == Some(r),
        arr_at(shaped(v, l, c, r, dis, pl), "disabledPlugins"@) == dis,
        arr_at(shaped(v, l, c, r, dis, pl), "plugins"@) == pl,
{
    lemma_names();
    let fs = shaped(v, l, c, r, dis, pl)->Object_0;
    let bf = bar_obj(l, c, r)->Object_0;
    let lf = layout_obj(l, c, r)->Object_0;
    lemma_key_index(fs, "bar"@, 1);
    lemma_key_index(fs, "disabledPlugins"@, 2);
    lemma_key_index(fs, "plugins"@, 3);
    lemma_key_index(bf, "layout"@, 1);
    lemma_key_index(lf, "left"@, 0);
    lemma_key_index(lf, "center"@, 1);
    lemma_key_index(lf, "right"@, 2);
}

/// The section of a shaped document that `sec` names.
pub open spec fn pick(sec: Section, l: Seq<JsonV>, c: Seq<JsonV>, r: Seq<JsonV>) -> Seq<JsonV> {
    match sec {
        Section::Left => l,
        Section::Center => c,
        Section::Right => r,
    }
}

/// A shaped document with the section `sec` replaced by `a`.
pub open spec fn with_section(
    v: JsonV,
    l: Seq<JsonV>,
    c: Seq<JsonV>,
    r: Seq<JsonV>,
    dis: Seq<JsonV>,
    pl: Seq<JsonV>,
    sec: Section,
    a: Seq<JsonV>,
) -> JsonV {
    match sec {
        Section::Left => shaped(v, a, c, r, dis, pl),
        Section::Center => shaped(v, l, a, r, dis, pl),
        Section::Right => shaped(v, l, c, a, dis, pl),
    }
}

proof fn lemma_section_keys()
    ensures
        section_key(Section::Left) == "left"@,
        section_key(Section::Center) == "center"@,
        section_key(Section::Right) == "right"@,
{
}

proof fn lemma_shape_put(v: JsonV, l: Seq<JsonV>, c: Seq<JsonV>, r: Seq<JsonV>, dis: Seq<JsonV>, pl: Seq<JsonV>, a: Seq<JsonV>)
    ensures
        put_arr(shaped(v, l, c, r, dis, pl), "disabledPlugins"@, a) == shaped(v, l, c, r, a, pl),
        put_arr(shaped(v, l, c, r, dis, pl), "plugins"@, a) == shaped(v, l, c, r, dis, a),
{
    lemma_shape_keys(v, l, c, r, dis, pl);
    let s = shaped(v, l, c, r, dis, pl);
    let fs = s->Object_0;
    assert(has_key(fs, "disabledPlugins"@)) by {
        assert(fs[2].0 == "disabledPlugins"@);
    }
    assert(has_key(fs, "plugins"@)) by {
        assert(fs[3].0 == "plugins"@);
    }
    assert(with_entry(s, "disabledPlugins"@, JsonV::Array(Seq::empty())) == s);
    assert(with_entry(s, "plugins"@, JsonV::Array(Seq::empty())) == s);
    assert(fs.update(2, (fs[2].0, JsonV::Array(a))) =~= shaped(v, l, c, r, a, pl)->Object_0);
    assert(fs.update(3, (fs[3].0, JsonV::Array(a))) =~= shaped(v, l, c, r, dis, a)->Object_0);
}

proof fn lemma_shape_section(
    v: JsonV,
    l: Seq<JsonV>,
    c: Seq<JsonV>,
    r: Seq<JsonV>,
    dis: Seq<JsonV>,
    pl: Seq<JsonV>,
    sec: Section,
    a: Seq<JsonV>,
    id: Seq<char>,
)
    ensures
        section_arr(shaped(v, l, c, r, dis, pl), section_key(sec)) == Some(pick(sec, l, c, r)),
        section_has(shaped(v, l, c, r, dis, pl), section_key(sec), id) == pick(sec, l, c, r).contains(JsonV::Str(id)),
        set_section(shaped(v, l, c, r, dis, pl), section_key(sec), a) == with_section(v, l, c, r, dis, pl, sec, a),
        scrub_section(shaped(v, l, c, r, dis, pl), section_key(sec), id) == with_section(
            v,
            l,
            c,
            r,
            dis,
            pl,
            sec,
            remove_str(pick(sec, l, c, r), id),
        ),
        place_widget(shaped(v, l, c, r, dis, pl), sec, id) == Ok::<JsonV, crate::selection::SelectionError>(
            with_section(v, l, c, r, dis, pl, sec, pick(sec, l, c, r).push(JsonV::Str(id))),
        ),
{
    lemma_shape_keys(v, l, c, r, dis, pl);
    lemma_section_keys();
    let s = shaped(v, l, c, r, dis, pl);
    let fs = s->Object_0;
    let b = bar_obj(l, c, r);
    let bf = b->Object_0;
    let lo = layout_obj(l, c, r);
    let lf = lo->Object_0;
    let key = section_key(sec);
    let k: int = match sec {
        Section::Left => 0,
        Section::Center => 1,
        Section::Right => 2,
    };
    assert(key_index(lf, key) == Some(k));
    assert(has_key(bf, "layout"@)) by {
        assert(bf[1].0 == "layout"@);
    }
    assert(has_key(lf, key)) by {
        assert(lf[k].0 == key);
    }
    assert(with_entry(b, "layout"@, JsonV::Object(Seq::empty())) == b);
    assert(with_entry(lo, key, JsonV::Array(Seq::empty())) == lo);
    assert(get(lo, key) == Some(JsonV::Array(pick(sec, l, c, r))));
    let set_l = |x: Seq<JsonV>| set_at(s, "bar"@, set_at(b, "layout"@, set_at(lo, key, JsonV::Array(x))));
    assert forall|x: Seq<JsonV>| #[trigger] set_l(x) == with_section(v, l, c, r, dis, pl, sec, x) by {
        let lo2 = set_at(lo, key, JsonV::Array(x));
        assert(lo2 == JsonV::Object(lf.update(k, (lf[k].0, JsonV::Array(x)))));
        let lx = match sec {
            Section::Left => layout_obj(x, c, r),
            Section::Center => layout_obj(l, x, r),
            Section::Right => layout_obj(l, c, x),
        };
        assert(lf.update(k, (lf[k].0, JsonV::Array(x))) =~= lx->Object_0);
        let bx = match sec {
            Section::Left => bar_obj(x, c, r),
            Section::Center => bar_obj(l, x, r),
            Section::Right => bar_obj(l, c, x),
        };
        assert(bf.update(1, (bf[1].0, lx)) =~= bx->Object_0);
        assert(fs.update(1, (fs[1].0, bx)) =~= with_section(v, l, c, r, dis, pl, sec, x)->Object_0);
    }
    assert(set_section(s, key, a) == set_l(a));
    assert(set_section(s, key, remove_str(pick(sec, l, c, r), id)) == set_l(remove_str(pick(sec, l, c, r), id)));
    assert(place_widget(s, sec, id) == Ok::<JsonV, crate::selection::SelectionError>(
        set_l(pick(sec, l, c, r).push(JsonV::Str(id))),
    ));
}

/// The generated all-off document is of the shape.
proof fn lemma_all_off_shaped(ds: Seq<Seq<char>>)
    ensures
        all_off_doc(ds) == shaped(
            JsonV::Number("1"@),
            Seq::empty(),
            Seq::empty(),
            Seq::empty(),
            str_array(ds),
            Seq::empty(),
        ),
{
    assert(all_off_doc(ds)->Object_0 =~= shaped(
        JsonV::Number("1"@),
        Seq::empty(),
        Seq::empty(),
        Seq::empty(),
        str_array(ds),
        Seq::empty(),
    )->Object_0);
}

/// `Str(id)` is in the string array of `ds` exactly when `id` is in `ds`.
proof fn lemma_str_array_contains(ds: Seq<Seq<char>>, id: Seq<char>)
    ensures
        str_array(ds).len() == ds.len(),
        str_array(ds).contains(JsonV::Str(id)) == ds.contains(id),
{
    let a = str_array(ds);
    if ds.contains(id) {
        let k = choose|k: int| 0 <= k < ds.len() && ds[k] == id;
        assert(a[k] == JsonV::Str(id));
    }
    if a.contains(JsonV::Str(id)) {
        let k = choose|k: int| 0 <= k < a.len() && a[k] == JsonV::Str(id);
        assert(ds[k] == id);
    }
}

/// Removing an absent id changes nothing.
proof fn lemma_remove_absent(s: Seq<JsonV>, id: Seq<char>)
    requires
        !s.contains(JsonV::Str(id)),
    ensures
        remove_str(s, id) == s,
{
}

proof fn lemma_remove_single(id: Seq<char>)
    ensures
        remove_str(seq![JsonV::Str(id)], id) == Seq::<JsonV>::empty(),
        remove_str(Seq::<JsonV>::empty(), id) == Seq::<JsonV>::empty(),
        Seq::<JsonV>::empty().push(JsonV::Str(id)) == seq![JsonV::Str(id)],
{
    let s = seq![JsonV::Str(id)];
    assert(s[0] == JsonV::Str(id));
    assert(is_first_str(s, id, 0));
    lemma_str_index(s, id, 0);
    assert(s.remove(0) =~= Seq::<JsonV>::empty());
    assert(Seq::<JsonV>::empty().push(JsonV::Str(id)) =~= s);
}

/// In a strictly sorted list, taking an id out and inserting it back in
/// sorted position restores the list; in between, the id is gone.
pub proof fn lemma_remove_then_insert(ds: Seq<Seq<char>>, id: Seq<char>)
    requires
        sorted_strict(ds),
        ds.contains(id),
    ensures
        !remove_str(str_array(ds), id).contains(JsonV::Str(id)),
        sorted_insert(remove_str(str_array(ds), id), id) == str_array(ds),
{
    let a = str_array(ds);
    let k = choose|k: int| 0 <= k < ds.len() && ds[k] == id;
    assert forall|j: int| 0 <= j < k implies a[j] != JsonV::Str(id) by {
        assert(lex_lt(ds[j], ds[k]));
        lemma_lex_irrefl(id);
    }
    assert(a[k] == JsonV::Str(id));
    assert(is_first_str(a, id, k));
    lemma_str_index(a, id, k);
    let rm = a.remove(k);
    assert(remove_str(a, id) == rm);
    assert forall|j: int| 0 <= j < rm.len() implies rm[j] != JsonV::Str(id) by {
        if j < k {
            assert(rm[j] == a[j]);
            assert(lex_lt(ds[j], ds[k]));
            lemma_lex_irrefl(id);
        } else {
            assert(rm[j] == a[j + 1]);
            assert(lex_lt(ds[k], ds[j + 1]));
            lemma_lex_irrefl(id);
        }
    }
    assert(sorted_pos(rm, id, k)) by {
        assert forall|j: int| 0 <= j < k implies str_below(rm[j], id) by {
            assert(rm[j] == JsonV::Str(ds[j]));
            assert(lex_lt(ds[j], ds[k]));
        }
        if k < rm.len() {
            assert(rm[k] == JsonV::Str(ds[k + 1]));
            assert(lex_lt(ds[k], ds[k + 1]));
            lemma_lex_asym(ds[k], ds[k + 1]);
        }
    }
    lemma_sorted_insert(rm, id, k);
    if k < rm.len() {
        assert(rm[k] != JsonV::Str(id));
    }
    assert(rm.insert(k, JsonV::Str(id)) =~= a);
}

/// `scrub_layout_spec` on a shaped document: `id` leaves each section.
proof fn lemma_scrub_shaped(v: JsonV, l: Seq<JsonV>, c: Seq<JsonV>, r: Seq<JsonV>, dis: Seq<JsonV>, pl: Seq<JsonV>, id: Seq<char>)
    ensures
        crate::selection::scrub_layout_spec(shaped(v, l, c, r, dis, pl), id) == shaped(
            v,
            remove_str(l, id),
            remove_str(c, id),
            remove_str(r, id),
            dis,
            pl,
        ),
{
    lemma_section_keys();
    let l1 = remove_str(l, id);
    let c1 = remove_str(c, id);
    let r1 = remove_str(r, id);
    lemma_shape_section(v, l, c, r, dis, pl, Section::Left, Seq::empty(), id);
    lemma_shape_section(v, l1, c, r, dis, pl, Section::Center, Seq::empty(), id);
    lemma_shape_section(v, l1, c1, r, dis, pl, Section::Right, Seq::empty(), id);
}

/// `disable` on a shaped document.
proof fn lemma_disable_shaped(v: JsonV, l: Seq<JsonV>, c: Seq<JsonV>, r: Seq<JsonV>, dis: Seq<JsonV>, pl: Seq<JsonV>, id: Seq<char>)
    requires
        id != BAR_ID@,
    ensures
        disable_ready(shaped(v, l, c, r, dis, pl), id),
        disable_spec(shaped(v, l, c, r, dis, pl), id).1 is Ok,
        disable_spec(shaped(v, l, c, r, dis, pl), id).0 == (if first_party(id) && !dis.contains(JsonV::Str(id)) {
            shaped(v, remove_str(l, id), remove_str(c, id), remove_str(r, id), sorted_insert(dis, id), remove_str(pl, id))
        } else {
            shaped(v, remove_str(l, id), remove_str(c, id), remove_str(r, id), dis, remove_str(pl, id))
        }),
{
    lemma_shape_keys(v, l, c, r, dis, pl);
    lemma_scrub_shaped(v, l, c, r, dis, pl, id);
    let l1 = remove_str(l, id);
    let c1 = remove_str(c, id);
    let r1 = remove_str(r, id);
    let p1 = remove_str(pl, id);
    lemma_shape_keys(v, l1, c1, r1, dis, pl);
    lemma_shape_put(v, l1, c1, r1, dis, pl, p1);
    lemma_shape_keys(v, l1, c1, r1, dis, p1);
    lemma_shape_put(v, l1, c1, r1, dis, p1, sorted_insert(dis, id));
}

/// `enable` on a shaped document whose sections do not hold `id`.
proof fn lemma_enable_shaped(
    v: JsonV,
    l: Seq<JsonV>,
    c: Seq<JsonV>,
    r: Seq<JsonV>,
    dis: Seq<JsonV>,
    pl: Seq<JsonV>,
    id: Seq<char>,
    kind: PluginKind,
    sec: Section,
)
    requires
        id != BAR_ID@,
        !l.contains(JsonV::Str(id)),
        !c.contains(JsonV::Str(id)),
        !r.contains(JsonV::Str(id)),
    ensures
        enable_ready(shaped(v, l, c, r, dis, pl), id, kind),
        enable_spec(shaped(v, l, c, r, dis, pl), id, kind, sec).1 is Ok,
        enable_spec(shaped(v, l, c, r, dis, pl), id, kind, sec).0 == ({
            let dis1 = if first_party(id) {
                remove_str(dis, id)
            } else {
                dis
            };
            if kind == PluginKind::BarWidget {
                with_section(v, l, c, r, dis1, pl, sec, pick(sec, l, c, r).push(JsonV::Str(id)))
            } else if !first_party(id) && !pl.contains(JsonV::Str(id)) {
                shaped(v, l, c, r, dis1, pl.push(JsonV::Str(id)))
            } else {
                shaped(v, l, c, r, dis1, pl)
            }
        }),
{
    lemma_section_keys();
    lemma_shape_keys(v, l, c, r, dis, pl);
    let dis1 = if first_party(id) {
        remove_str(dis, id)
    } else {
        dis
    };
    lemma_shape_put(v, l, c, r, dis, pl, remove_str(dis, id));
    let d1 = shaped(v, l, c, r, dis1, pl);
    lemma_shape_keys(v, l, c, r, dis1, pl);
    lemma_shape_section(v, l, c, r, dis1, pl, Section::Left, Seq::empty(), id);
    lemma_shape_section(v, l, c, r, dis1, pl, Section::Center, Seq::empty(), id);
    lemma_shape_section(v, l, c, r, dis1, pl, Section::Right, Seq::empty(), id);
    assert(layout_section_of(d1, id) is None);
    lemma_shape_section(v, l, c, r, dis1, pl, sec, Seq::empty(), id);
    lemma_shape_put(v, l, c, r, dis1, pl, pl.push(JsonV::Str(id)));
}

/// Enabling a plugin on the generated all-off document and then disabling
/// it gives back exactly that document, whatever the plugin's kind and the
/// section asked for: the first-party ids it lists as disabled (sorted,
/// each once) and any third-party id. Both edits succeed on the way.
pub proof fn law_enable_then_disable_restores(ds: Seq<Seq<char>>, id: Seq<char>, kind: PluginKind, sec: Section)
    requires
        sorted_strict(ds),
        id != BAR_ID@,
        first_party(id) ==> ds.contains(id),
    ensures
        enable_ready(all_off_doc(ds), id, kind),
        enable_spec(all_off_doc(ds), id, kind, sec).1 is Ok,
        disable_ready(enable_spec(all_off_doc(ds), id, kind, sec).0, id),
        disable_spec(enable_spec(all_off_doc(ds), id, kind, sec).0, id).1 is Ok,
        disable_spec(enable_spec(all_off_doc(ds), id, kind, sec).0, id).0 == all_off_doc(ds),
{
    let e = JsonV::Number("1"@);
    let z = Seq::<JsonV>::empty();
    let a = str_array(ds);
    lemma_all_off_shaped(ds);
    lemma_remove_single(id);
    lemma_enable_shaped(e, z, z, z, a, z, id, kind, sec);
    let a1 = if first_party(id) {
        remove_str(a, id)
    } else {
        a
    };
    if first_party(id) {
        lemma_remove_then_insert(ds, id);
    }
    let one = seq![JsonV::Str(id)];
    if kind == PluginKind::BarWidget {
        let (l, c, r) = match sec {
            Section::Left => (one, z, z),
            Section::Center => (z, one, z),
            Section::Right => (z, z, one),
        };
        assert(with_section(e, z, z, z, a1, z, sec, pick(sec, z, z, z).push(JsonV::Str(id))) == shaped(e, l, c, r, a1, z));
        lemma_disable_shaped(e, l, c, r, a1, z, id);
    } else if !first_party(id) {
        lemma_disable_shaped(e, z, z, z, a1, one, id);
    } else {
        lemma_disable_shaped(e, z, z, z, a1, z, id);
    }
}

/// Disabling what the generated all-off document already has off changes
/// nothing: the document stays as it is and the outcome says so.
pub proof fn law_disable_when_off_is_unchanged(ds: Seq<Seq<char>>, id: Seq<char>)
    requires
        sorted_strict(ds),
        id != BAR_ID@,
        first_party(id) ==> ds.contains(id),
    ensures
        disable_ready(all_off_doc(ds), id),
        disable_spec(all_off_doc(ds), id).0 == all_off_doc(ds),
        disable_spec(all_off_doc(ds), id).1 == Ok::<Outcome, crate::selection::SelectionError>(
            Outcome::Unchanged("was not enabled"),
        ),
{
    let e = JsonV::Number("1"@);
    let z = Seq::<JsonV>::empty();
    let a = str_array(ds);
    lemma_all_off_shaped(ds);
    lemma_remove_single(id);
    lemma_str_array_contains(ds, id);
    lemma_disable_shaped(e, z, z, z, a, z, id);
    lemma_scrub_shaped(e, z, z, z, a, z, id);
    lemma_shape_keys(e, z, z, z, a, z);
    lemma_section_keys();
    lemma_shape_section(e, z, z, z, a, z, Section::Left, z, id);
    lemma_shape_section(e, z, z, z, a, z, Section::Center, z, id);
    lemma_shape_section(e, z, z, z, a, z, Section::Right, z, id);
    assert(!crate::selection::scrub_hit(all_off_doc(ds), id));
    let d = all_off_doc(ds);
    assert(crate::selection::scrub_layout_spec(d, id) == d);
    assert(arr_at(d, "plugins"@) == z);
    assert(!z.contains(JsonV::Str(id)));
    lemma_shape_put(e, z, z, z, a, z, z);
    assert(put_arr(d, "plugins"@, remove_str(z, id)) == d);
    assert(first_party(id) ==> a.contains(JsonV::Str(id)));
    assert(crate::selection::outcome_of(false, "was not enabled") == Outcome::Unchanged("was not enabled"));
}

/// Enabling again what was just enabled on the generated all-off document
/// changes nothing, whichever section the second request names (a placed
/// widget is neither moved nor duplicated).
pub proof fn law_enable_twice_is_enable_once(
    ds: Seq<Seq<char>>,
    id: Seq<char>,
    kind: PluginKind,
    sec: Section,
    sec2: Section,
)
    requires
        sorted_strict(ds),
        id != BAR_ID@,
        first_party(id) ==> ds.contains(id),
    ensures
        enable_ready(enable_spec(all_off_doc(ds), id, kind, sec).0, id, kind),
        enable_spec(enable_spec(all_off_doc(ds), id, kind, sec).0, id, kind, sec2).0 == enable_spec(
            all_off_doc(ds),
            id,
            kind,
            sec,
        ).0,
        enable_spec(enable_spec(all_off_doc(ds), id, kind, sec).0, id, kind, sec2).1 matches Ok(
            Outcome::Unchanged(_),
        ),
{
    let e = JsonV::Number("1"@);
    let z = Seq::<JsonV>::empty();
    let a = str_array(ds);
    lemma_all_off_shaped(ds);
    lemma_remove_single(id);
    lemma_str_array_contains(ds, id);
    lemma_section_keys();
    lemma_enable_shaped(e, z, z, z, a, z, id, kind, sec);
    let a1 = if first_party(id) {
        remove_str(a, id)
    } else {
        a
    };
    if first_party(id) {
        lemma_remove_then_insert(ds, id);
        lemma_remove_absent(a1, id);
    }
    let one = seq![JsonV::Str(id)];
    assert(one.contains(JsonV::Str(id))) by {
        assert(one[0] == JsonV::Str(id));
    }
    if kind == PluginKind::BarWidget {
        let (l, c, r) = match sec {
            Section::Left => (one, z, z),
            Section::Center => (z, one, z),
            Section::Right => (z, z, one),
        };
        assert(with_section(e, z, z, z, a1, z, sec, pick(sec, z, z, z).push(JsonV::Str(id))) == shaped(e, l, c, r, a1, z));
        lemma_shape_keys(e, l, c, r, a1, z);
        lemma_shape_put(e, l, c, r, a1, z, remove_str(a1, id));
        lemma_shape_section(e, l, c, r, a1, z, Section::Left, z, id);
        lemma_shape_section(e, l, c, r, a1, z, Section::Center, z, id);
        lemma_shape_section(e, l, c, r, a1, z, Section::Right, z, id);
        assert(layout_section_of(shaped(e, l, c, r, a1, z), id) is Some);
    } else if !first_party(id) {
        lemma_shape_keys(e, z, z, z, a1, one);
        lemma_enable_shaped(e, z, z, z, a1, one, id, kind, sec2);
    } else {
        lemma_shape_keys(e, z, z, z, a1, z);
        lemma_enable_shaped(e, z, z, z, a1, z, id, kind, sec2);
        lemma_shape_put(e, z, z, z, a1, z, remove_str(a1, id));
    }
}

/// Fields other than `bar`, `disabledPlugins` and `plugins` survive every
/// edit untouched, on any document the edits accept.
pub proof fn law_edits_keep_other_fields(d: JsonV, id: Seq<char>, kind: PluginKind, sec: Section, k: Seq<char>)
    requires
        k != "bar"@,
        k != "disabledPlugins"@,
        k != "plugins"@,
    ensures
        enable_ready(d, id, kind) ==> get(enable_spec(d, id, kind, sec).0, k) == get(d, k),
        disable_ready(d, id) ==> get(disable_spec(d, id).0, k) == get(d, k),
{
    crate::selection::lemma_key_names();
    if id != BAR_ID@ {
        if enable_ready(d, id, kind) {
            let fp = first_party(id);
            let dis = arr_at(d, "disabledPlugins"@);
            if fp {
                crate::json::lemma_put_arr(d, "disabledPlugins"@, remove_str(dis, id), k);
                crate::json::lemma_put_arr(d, "disabledPlugins"@, remove_str(dis, id), "plugins"@);
            }
            let d1 = if fp {
                put_arr(d, "disabledPlugins"@, remove_str(dis, id))
            } else {
                d
            };
            if kind == PluginKind::BarWidget {
                match place_widget(d1, sec, id) {
                    Ok(d2) => {
                        let b = get(d1, "bar"@)->0;
                        let b1 = with_entry(b, "layout"@, JsonV::Object(Seq::empty()));
                        let l = get(b1, "layout"@)->0;
                        let key = section_key(sec);
                        let l1 = with_entry(l, key, JsonV::Array(Seq::empty()));
                        let a = get(l1, key)->0->Array_0;
                        crate::json::lemma_set_at_get(
                            d1,
                            "bar"@,
                            set_at(b1, "layout"@, set_at(l1, key, JsonV::Array(a.push(JsonV::Str(id))))),
                            k,
                        );
                    },
                    Err(_) => {},
                }
            } else if !fp && !arr_at(d1, "plugins"@).contains(JsonV::Str(id)) {
                crate::json::lemma_put_arr(d1, "plugins"@, arr_at(d1, "plugins"@).push(JsonV::Str(id)), k);
            }
        }
        if disable_ready(d, id) {
            let d3 = crate::selection::scrub_layout_spec(d, id);
            crate::selection::lemma_scrub_all_other(d, id, k);
            crate::selection::lemma_scrub_all_other(d, id, "plugins"@);
            crate::selection::lemma_scrub_all_other(d, id, "disabledPlugins"@);
            let p = arr_at(d3, "plugins"@);
            crate::json::lemma_put_arr(d3, "plugins"@, remove_str(p, id), k);
            crate::json::lemma_put_arr(d3, "plugins"@, remove_str(p, id), "disabledPlugins"@);
            let d4 = put_arr(d3, "plugins"@, remove_str(p, id));
            let dis = arr_at(d4, "disabledPlugins"@);
            if first_party(id) && !dis.contains(JsonV::Str(id)) {
                crate::json::lemma_put_arr(d4, "disabledPlugins"@, sorted_insert(dis, id), k);
            }
        }
    }
}

} // verus!






