//! shell.json generation, manifest bookkeeping and the down-window
//! reconciliation against a new pin's first-party id set.
use vstd::prelude::*;

use crate::json::{
    Json, JsonV, as_str_chars, find_key, get, json_eq, json_view, key_index, is_first_key, lemma_key_index,
    lemma_key_index_some, lemma_view_arr, lemma_view_obj, view_arr, view_obj, has_key, set_at,
    lemma_set_at_get,
};
use crate::text::{chars_of, eq_str, lex_lt, seq_eq, sort_strings, sorted, sorted_strict, sorted_unique, str_lt, sviews};

verus! {

/// Kind marking the bar itself — never disabled, stays active via `bar.id`.
pub const BAR_KIND: &'static str = "bar";

/// One scanned manifest: id + declared kinds.
#[derive(Debug, Clone)]
pub struct ManifestInfo {
    pub id: String,
    pub kinds: Vec<String>,
}

impl View for ManifestInfo {
    type V = (Seq<char>, Seq<Seq<char>>);

    open spec fn view(&self) -> (Seq<char>, Seq<Seq<char>>) {
        (self.id@, sviews(self.kinds@))
    }
}

pub open spec fn str_array(ids: Seq<Seq<char>>) -> Seq<JsonV> {
    ids.map_values(|s: Seq<char>| JsonV::Str(s))
}

/// The all-off document for a set of first-party ids (given sorted, distinct).
pub open spec fn all_off_doc(disabled: Seq<Seq<char>>) -> JsonV {
    JsonV::Object(
        seq![
            ("version"@, JsonV::Number("1"@)),
            (
                "bar"@,
                JsonV::Object(
                    seq![
                        ("id"@, JsonV::Str("omarchy.bar"@)),
                        (
                            "layout"@,
                            JsonV::Object(
                                seq![
                                    ("left"@, JsonV::Array(Seq::empty())),
                                    ("center"@, JsonV::Array(Seq::empty())),
                                    ("right"@, JsonV::Array(Seq::empty())),
                                ],
                            ),
                        ),
                    ],
                ),
            ),
            ("disabledPlugins"@, JsonV::Array(str_array(disabled))),
            ("plugins"@, JsonV::Array(Seq::empty())),
        ],
    )
}

fn owned(s: &str) -> (r: String)
    ensures
        r@ == s@,
{
    s.to_owned()
}

fn empty_array() -> (r: Json)
    ensures
        r@ == JsonV::Array(Seq::empty()),
{
    let v: Vec<Json> = Vec::new();
    proof {
        lemma_view_arr(v@);
    }
    assert(view_arr(v@) =~= Seq::<JsonV>::empty());
    Json::Array(v)
}

/// Array of string values, in order.
pub fn strings_array(ids: &[String]) -> (r: Json)
    ensures
        r@ == JsonV::Array(str_array(sviews(ids@))),
{
    let mut v: Vec<Json> = Vec::new();
    let mut i: usize = 0;
    while i < ids.len()
        invariant
            i <= ids.len(),
            view_arr(v@) == str_array(sviews(ids@.take(i as int))),
        decreases ids.len() - i,
    {
        let ghost old_v = v@;
        proof {
            lemma_view_arr(v@);
        }
        v.push(Json::Str(ids[i].clone()));
        i += 1;
        proof {
            lemma_view_arr(v@);
            assert(sviews(ids@.take(i as int)) =~= sviews(ids@.take(i - 1)).push(ids@[i - 1]@));
            assert(view_arr(v@) =~= view_arr(old_v).push(JsonV::Str(ids@[i - 1]@)));
            assert(view_arr(v@) =~= str_array(sviews(ids@.take(i as int))));
        }
    }
    assert(ids@.take(ids.len() as int) == ids@);
    Json::Array(v)
}

/// The complete all-off config: every first-party non-bar plugin in
/// `disabledPlugins[]` (sorted, deduped), empty bar layout, no third-party
/// plugins.
pub fn generate(first_party_non_bar: &[String]) -> (r: Json)
    ensures
        exists|d: Seq<Seq<char>>|
            #![trigger all_off_doc(d)]
            sorted_strict(d) && d.to_set() == sviews(first_party_non_bar@).to_set() && r@
                == all_off_doc(d),
{
    let disabled = sorted_unique(first_party_non_bar);
    let layout_fields: Vec<(String, Json)> = vec![
        (owned("left"), empty_array()),
        (owned("center"), empty_array()),
        (owned("right"), empty_array()),
    ];
    let layout = Json::Object(layout_fields);
    let bar_fields: Vec<(String, Json)> = vec![
        (owned("id"), Json::Str(owned("omarchy.bar"))),
        (owned("layout"), layout),
    ];
    let bar = Json::Object(bar_fields);
    let fields: Vec<(String, Json)> = vec![
        (owned("version"), Json::Number(owned("1"))),
        (owned("bar"), bar),
        (owned("disabledPlugins"), strings_array(disabled.as_slice())),
        (owned("plugins"), empty_array()),
    ];
    let r = Json::Object(fields);
    proof {
        lemma_view_obj(layout_fields@);
        lemma_view_obj(bar_fields@);
        lemma_view_obj(fields@);
        let d = sviews(disabled@);
        assert(view_obj(layout_fields@) =~= seq![
            ("left"@, JsonV::Array(Seq::empty())),
            ("center"@, JsonV::Array(Seq::empty())),
            ("right"@, JsonV::Array(Seq::empty())),
        ]);
        let lv = JsonV::Object(seq![
            ("left"@, JsonV::Array(Seq::empty())),
            ("center"@, JsonV::Array(Seq::empty())),
            ("right"@, JsonV::Array(Seq::empty())),
        ]);
        assert(layout@ == lv);
        assert(view_obj(bar_fields@) =~= seq![("id"@, JsonV::Str("omarchy.bar"@)), ("layout"@, lv)]);
        assert(view_obj(fields@) =~= all_off_doc(d)->Object_0);
        assert(r@ == all_off_doc(d));
    }
    r
}

/// Does the manifest declare kind `k`?
pub fn has_kind(m: &ManifestInfo, k: &str) -> (r: bool)
    ensures
        r == m@.1.contains(k@),
{
    let mut i: usize = 0;
    while i < m.kinds.len()
        invariant
            i <= m.kinds.len(),
            forall|j: int| 0 <= j < i ==> m.kinds@[j]@ != k@,
        decreases m.kinds.len() - i,
    {
        let c = chars_of(m.kinds[i].as_str());
        if eq_str(c.as_slice(), k) {
            assert(m@.1[i as int] == k@);
            return true;
        }
        i += 1;
    }
    assert(!m@.1.contains(k@)) by {
        if m@.1.contains(k@) {
            let j = choose|j: int| 0 <= j < m@.1.len() && m@.1[j] == k@;
            assert(m.kinds@[j]@ == k@);
        }
    }
    false
}

pub open spec fn non_bar_ids(ms: Seq<(Seq<char>, Seq<Seq<char>>)>) -> Seq<Seq<char>>
    decreases ms.len(),
{
    if ms.len() == 0 {
        Seq::empty()
    } else {
        let r = non_bar_ids(ms.drop_last());
        if ms.last().1.contains("bar"@) {
            r
        } else {
            r.push(ms.last().0)
        }
    }
}

pub open spec fn mviews(ms: Seq<ManifestInfo>) -> Seq<(Seq<char>, Seq<Seq<char>>)> {
    ms.map_values(|m: ManifestInfo| m@)
}

/// Is `ms[i]` the first manifest carrying its id?
pub open spec fn first_with_id(ms: Seq<(Seq<char>, Seq<Seq<char>>)>, i: int) -> bool {
    0 <= i < ms.len() && forall|j: int| 0 <= j < i ==> ms[j].0 != ms[i].0
}

pub open spec fn ids_of(ms: Seq<(Seq<char>, Seq<Seq<char>>)>) -> Seq<Seq<char>> {
    ms.map_values(|m: (Seq<char>, Seq<Seq<char>>)| m.0)
}

/// Some entry of `out` carries this id.
pub open spec fn has_id(out: Seq<(Seq<char>, Seq<Seq<char>>)>, id: Seq<char>) -> bool {
    exists|k: int| 0 <= k < out.len() && out[k].0 == id
}

/// `x` is the first manifest with its id among the first `i` scanned.
pub open spec fn first_entry(orig: Seq<(Seq<char>, Seq<Seq<char>>)>, i: int, x: (Seq<char>, Seq<Seq<char>>)) -> bool {
    exists|j: int| 0 <= j < i && first_with_id(orig, j) && x == orig[j]
}

/// What the first `i` scanned manifests leave in `out`: strictly sorted
/// ids, each entry the first manifest with its id, every id seen present.
pub open spec fn by_id_upto(out: Seq<(Seq<char>, Seq<Seq<char>>)>, orig: Seq<(Seq<char>, Seq<Seq<char>>)>, i: int) -> bool {
    &&& sorted_strict(ids_of(out))
    &&& forall|k: int| 0 <= k < out.len() ==> #[trigger] first_entry(orig, i, out[k])
    &&& forall|j: int| 0 <= j < i ==> #[trigger] has_id(out, orig[j].0)
}

/// A manifest whose id is already present adds nothing.
proof fn lemma_by_id_dup(out: Seq<(Seq<char>, Seq<Seq<char>>)>, orig: Seq<(Seq<char>, Seq<Seq<char>>)>, i: int, p: int)
    requires
        0 <= i < orig.len(),
        by_id_upto(out, orig, i),
        0 <= p < out.len(),
        out[p].0 == orig[i].0,
    ensures
        by_id_upto(out, orig, i + 1),
{
    assert forall|j: int| 0 <= j < i + 1 implies #[trigger] has_id(out, orig[j].0) by {
        if j == i {
            assert(out[p].0 == orig[j].0);
        }
    }
    assert forall|k: int| 0 <= k < out.len() implies #[trigger] first_entry(orig, i + 1, out[k]) by {
        assert(first_entry(orig, i, out[k]));
        let j = choose|j: int| 0 <= j < i && first_with_id(orig, j) && out[k] == orig[j];
        assert(0 <= j < i + 1 && first_with_id(orig, j) && out[k] == orig[j]);
    }
}

/// A manifest with a new id, inserted at its sorted position.
proof fn lemma_by_id_insert(out: Seq<(Seq<char>, Seq<Seq<char>>)>, orig: Seq<(Seq<char>, Seq<Seq<char>>)>, i: int, p: int)
    requires
        0 <= i < orig.len(),
        by_id_upto(out, orig, i),
        0 <= p <= out.len(),
        forall|k: int| 0 <= k < p ==> lex_lt(#[trigger] out[k].0, orig[i].0),
        p < out.len() ==> !lex_lt(out[p].0, orig[i].0) && out[p].0 != orig[i].0,
    ensures
        by_id_upto(out.insert(p, orig[i]), orig, i + 1),
{
    let oi = ids_of(out);
    let id = orig[i].0;
    assert forall|k: int| 0 <= k < out.len() implies #[trigger] out[k].0 != id by {
        assert(oi[k] == out[k].0);
        if k < p {
            crate::text::lemma_lex_irrefl(id);
        } else if k > p {
            crate::text::lemma_lex_total(out[p].0, id);
            assert(oi[p] == out[p].0);
            assert(lex_lt(oi[p], oi[k]));
            if out[k].0 == id {
                crate::text::lemma_lex_asym(id, out[p].0);
            }
        }
    }
    assert(first_with_id(orig, i)) by {
        assert forall|j: int| 0 <= j < i implies orig[j].0 != orig[i].0 by {
            assert(has_id(out, orig[j].0));
            let k = choose|k: int| 0 <= k < out.len() && out[k].0 == orig[j].0;
            assert(out[k].0 != id);
        }
    }
    let n = out.insert(p, orig[i]);
    let ni = ids_of(n);
    assert(ni =~= oi.insert(p, id));
    assert forall|a: int, b: int| 0 <= a < b < ni.len() implies lex_lt(ni[a], ni[b]) by {
        if b == p {
            assert(oi[a] == out[a].0);
        } else if a == p {
            crate::text::lemma_lex_total(out[p].0, id);
            assert(oi[p] == out[p].0);
            if b - 1 > p {
                assert(lex_lt(oi[p], oi[b - 1]));
                crate::text::lemma_lex_trans(id, oi[p], oi[b - 1]);
            }
        } else if a < p && b > p {
            assert(lex_lt(oi[a], oi[b - 1]));
        } else if b < p {
            assert(lex_lt(oi[a], oi[b]));
        } else {
            assert(lex_lt(oi[a - 1], oi[b - 1]));
        }
    }
    assert forall|k: int| 0 <= k < n.len() implies #[trigger] first_entry(orig, i + 1, n[k]) by {
        if k == p {
            assert(0 <= i < i + 1 && first_with_id(orig, i) && n[k] == orig[i]);
        } else {
            let kk = if k < p { k } else { k - 1 };
            assert(n[k] == out[kk]);
            assert(first_entry(orig, i, out[kk]));
            let j = choose|j: int| 0 <= j < i && first_with_id(orig, j) && out[kk] == orig[j];
            assert(0 <= j < i + 1 && first_with_id(orig, j) && n[k] == orig[j]);
        }
    }
    assert forall|j: int| 0 <= j < i + 1 implies #[trigger] has_id(n, orig[j].0) by {
        if j == i {
            assert(n[p].0 == orig[j].0);
        } else {
            assert(has_id(out, orig[j].0));
            let k = choose|k: int| 0 <= k < out.len() && out[k].0 == orig[j].0;
            let kk = if k < p { k } else { k + 1 };
            assert(n[kk] == out[k]);
        }
    }
}

/// Scanned manifests sorted by id, one per id: the first found of each
/// (a stable sort, then dropping later duplicates).
pub fn manifests_by_id(ms: Vec<ManifestInfo>) -> (r: Vec<ManifestInfo>)
    ensures
        by_id_upto(mviews(r@), mviews(ms@), ms@.len() as int),
{
    let ghost orig = mviews(ms@);
    let mut v = ms;
    let mut out: Vec<ManifestInfo> = Vec::new();
    let mut i: usize = 0;
    assert(by_id_upto(mviews(out@), orig, 0));
    while i < v.len()
        invariant
            i <= v.len(),
            orig.len() == v.len(),
            forall|j: int| i <= j < v.len() ==> #[trigger] v@[j]@ == orig[j],
            by_id_upto(mviews(out@), orig, i as int),
        decreases v.len() - i,
    {
        let mut m = ManifestInfo { id: String::new(), kinds: Vec::new() };
        v.set_and_swap(i, &mut m);
        assert(m@ == orig[i as int]);
        let ghost o = mviews(out@);
        let mut p: usize = 0;
        while p < out.len() && str_lt(out[p].id.as_str(), m.id.as_str())
            invariant
                p <= out.len(),
                o == mviews(out@),
                forall|k: int| 0 <= k < p ==> lex_lt(#[trigger] o[k].0, m.id@),
            decreases out.len() - p,
        {
            p += 1;
        }
        let dup = p < out.len() && {
            let a = chars_of(out[p].id.as_str());
            let b = chars_of(m.id.as_str());
            seq_eq(a.as_slice(), b.as_slice())
        };
        if dup {
            proof {
                lemma_by_id_dup(o, orig, i as int, p as int);
            }
        } else {
            proof {
                lemma_by_id_insert(o, orig, i as int, p as int);
            }
            out.insert(p, m);
            assert(mviews(out@) =~= o.insert(p as int, orig[i as int]));
        }
        i += 1;
    }
    out
}

/// Ids of every scanned manifest except the bar itself (kind `bar`), in
/// scan order — exactly the ids an all-off config lists as disabled.
pub fn first_party_non_bar_ids(manifests: &[ManifestInfo]) -> (r: Vec<String>)
    ensures
        sviews(r@) == non_bar_ids(mviews(manifests@)),
{
    let mut out: Vec<String> = Vec::new();
    let mut i: usize = 0;
    while i < manifests.len()
        invariant
            i <= manifests.len(),
            sviews(out@) == non_bar_ids(mviews(manifests@.take(i as int))),
        decreases manifests.len() - i,
    {
        let ghost pre = mviews(manifests@.take(i as int));
        let ghost cur = mviews(manifests@.take(i + 1));
        assert(cur.drop_last() =~= pre);
        assert(cur.last() == manifests@[i as int]@);
        if !has_kind(&manifests[i], BAR_KIND) {
            out.push(manifests[i].id.clone());
        }
        i += 1;
        assert(sviews(out@) =~= non_bar_ids(cur));
    }
    assert(manifests@.take(manifests.len() as int) == manifests@);
    out
}


// --- reconciliation (down-window rewrite of shell.json) --------------------------

pub open spec fn rviews(r: Seq<(String, String)>) -> Seq<(Seq<char>, Seq<char>)> {
    r.map_values(|p: (String, String)| (p.0@, p.1@))
}

/// `i` is the last rename whose source is `s` (a later `--rename` for the same
/// source overrides an earlier one).
pub open spec fn is_last_source(rn: Seq<(Seq<char>, Seq<char>)>, s: Seq<char>, i: int) -> bool {
    0 <= i < rn.len() && rn[i].0 == s && forall|j: int| i < j < rn.len() ==> rn[j].0 != s
}

pub open spec fn rename_index(rn: Seq<(Seq<char>, Seq<char>)>, s: Seq<char>) -> Option<int> {
    if exists|i: int| is_last_source(rn, s, i) {
        Some(choose|i: int| is_last_source(rn, s, i))
    } else {
        None
    }
}

proof fn lemma_rename_index(rn: Seq<(Seq<char>, Seq<char>)>, s: Seq<char>, i: int)
    requires
        is_last_source(rn, s, i),
    ensures
        rename_index(rn, s) == Some(i),
{
    let c = choose|i: int| is_last_source(rn, s, i);
    assert(is_last_source(rn, s, c));
    if c < i {
        assert(rn[i].0 != s);
    }
    if i < c {
        assert(rn[c].0 != s);
    }
}

/// Index of the rename that applies to `s`, if any.
fn rename_lookup(renames: &[(String, String)], s: &[char]) -> (r: Option<usize>)
    ensures
        match r {
            Some(i) => i < renames.len() && rename_index(rviews(renames@), s@) == Some(i as int),
            None => rename_index(rviews(renames@), s@) is None,
        },
{
    let ghost rn = rviews(renames@);
    let mut i = renames.len();
    while i > 0
        invariant
            i <= renames.len(),
            rn == rviews(renames@),
            forall|j: int| i <= j < renames.len() ==> rn[j].0 != s@,
        decreases i,
    {
        let k = chars_of(renames[i - 1].0.as_str());
        if seq_eq(k.as_slice(), s) {
            proof {
                assert(is_last_source(rn, s@, i - 1));
                lemma_rename_index(rn, s@, i - 1);
            }
            return Some(i - 1);
        }
        i -= 1;
    }
    assert(!exists|j: int| is_last_source(rn, s@, j));
    None
}

/// One layout entry after renaming, and the rename that hit it.
pub open spec fn rename_entry_spec(e: JsonV, rn: Seq<(Seq<char>, Seq<char>)>) -> (JsonV, Option<int>) {
    match e {
        JsonV::Str(s) => match rename_index(rn, s) {
            Some(i) => (JsonV::Str(rn[i].1), Some(i)),
            None => (e, None),
        },
        JsonV::Object(fs) => match key_index(fs, "id"@) {
            Some(k) => match fs[k].1 {
                JsonV::Str(id) => match rename_index(rn, id) {
                    Some(i) => (JsonV::Object(fs.update(k, (fs[k].0, JsonV::Str(rn[i].1)))), Some(i)),
                    None => (e, None),
                },
                _ => (e, None),
            },
            None => (e, None),
        },
        _ => (e, None),
    }
}

pub open spec fn mark(applied: Seq<bool>, hit: Option<int>) -> Seq<bool> {
    match hit {
        Some(i) => applied.update(i, true),
        None => applied,
    }
}

fn rename_entry(e: Json, renames: &[(String, String)], applied: &mut Vec<bool>) -> (r: Json)
    requires
        old(applied).len() == renames.len(),
    ensures
        r@ == rename_entry_spec(e@, rviews(renames@)).0,
        final(applied)@ == mark(old(applied)@, rename_entry_spec(e@, rviews(renames@)).1),
{
    let ghost rn = rviews(renames@);
    match e {
        Json::Str(s) => {
            let c = chars_of(s.as_str());
            match rename_lookup(renames, c.as_slice()) {
                Some(i) => {
                    applied.set(i, true);
                    Json::Str(renames[i].1.clone())
                },
                None => Json::Str(s),
            }
        },
        Json::Object(mut fs) => {
            proof {
                lemma_view_obj(fs@);
            }
            let id_key = chars_of("id");
            match find_key(&fs, id_key.as_slice()) {
                Some(k) => {
                    match as_str_chars(&fs[k].1) {
                        Some(id) => {
                            match rename_lookup(renames, id.as_slice()) {
                                Some(i) => {
                                    let ghost before = fs@;
                                    let key = fs[k].0.clone();
                                    fs.set(k, (key, Json::Str(renames[i].1.clone())));
                                    applied.set(i, true);
                                    proof {
                                        lemma_view_obj(fs@);
                                        assert(view_obj(fs@) =~= view_obj(before).update(
                                            k as int,
                                            (view_obj(before)[k as int].0, JsonV::Str(rn[i as int].1)),
                                        ));
                                    }
                                    Json::Object(fs)
                                },
                                None => Json::Object(fs),
                            }
                        },
                        None => Json::Object(fs),
                    }
                },
                None => Json::Object(fs),
            }
        },
        other => other,
    }
}

pub open spec fn rename_section(v: JsonV, rn: Seq<(Seq<char>, Seq<char>)>) -> JsonV {
    match v {
        JsonV::Array(es) => JsonV::Array(es.map_values(|e: JsonV| rename_entry_spec(e, rn).0)),
        _ => v,
    }
}

pub open spec fn section_hit(v: JsonV, rn: Seq<(Seq<char>, Seq<char>)>, i: int) -> bool {
    match v {
        JsonV::Array(es) => exists|j: int| 0 <= j < es.len() && rename_entry_spec(es[j], rn).1 == Some(i),
        _ => false,
    }
}

fn rename_section_exec(v: Json, renames: &[(String, String)], applied: &mut Vec<bool>) -> (r: Json)
    requires
        old(applied).len() == renames.len(),
    ensures
        r@ == rename_section(v@, rviews(renames@)),
        final(applied).len() == renames.len(),
        forall|i: int| 0 <= i < renames.len() ==> #[trigger] final(applied)@[i] == (old(applied)@[i] || section_hit(v@, rviews(renames@), i)),
{
    let ghost rn = rviews(renames@);
    match v {
        Json::Array(mut es) => {
            let ghost es0 = view_arr(es@);
            proof {
                lemma_view_arr(es@);
            }
            let ghost a0 = applied@;
            let mut out: Vec<Json> = Vec::new();
            let mut n: usize = 0;
            let total = es.len();
            while es.len() > 0
                invariant
                    n + es.len() == total,
                    es0.len() == total,
                    view_arr(es@) == es0.skip(n as int),
                    view_arr(out@) == es0.take(n as int).map_values(|e: JsonV| rename_entry_spec(e, rn).0),
                    applied.len() == renames.len(),
                    rn == rviews(renames@),
                    forall|i: int| 0 <= i < renames.len() ==> #[trigger] applied@[i] == (a0[i] || exists|j: int| 0 <= j < n && rename_entry_spec(es0[j], rn).1 == Some(i)),
                decreases es.len(),
            {
                proof {
                    lemma_view_arr(es@);
                    lemma_view_arr(out@);
                }
                let ghost old_es = es@;
                let ghost old_out = out@;
                let ghost old_ap = applied@;
                let e = es.remove(0);
                assert(json_view(e) == es0[n as int]) by {
                    assert(view_arr(old_es)[0] == es0.skip(n as int)[0]);
                }
                let ghost hit = rename_entry_spec(json_view(e), rn).1;
                let r = rename_entry(e, renames, applied);
                out.push(r);
                n += 1;
                proof {
                    lemma_view_arr(es@);
                    lemma_view_arr(out@);
                    lemma_view_arr(old_es);
                    lemma_view_arr(old_out);
                    assert forall|j: int| 0 <= j < es@.len() implies view_arr(es@)[j] == es0.skip(n as int)[j] by {
                        assert(es@[j] == old_es[j + 1]);
                        assert(view_arr(old_es)[j + 1] == es0.skip(n - 1)[j + 1]);
                    }
                    assert(view_arr(es@) =~= es0.skip(n as int));
                    assert forall|j: int| 0 <= j < out@.len() implies view_arr(out@)[j] == es0.take(n as int).map_values(|e: JsonV| rename_entry_spec(e, rn).0)[j] by {
                        if j < n - 1 {
                            assert(out@[j] == old_out[j]);
                            assert(view_arr(old_out)[j] == es0.take(n - 1).map_values(|e: JsonV| rename_entry_spec(e, rn).0)[j]);
                        }
                    }
                    assert(view_arr(out@) =~= es0.take(n as int).map_values(|e: JsonV| rename_entry_spec(e, rn).0));
                    assert forall|i: int| 0 <= i < renames.len() implies #[trigger] applied@[i] == (a0[i] || exists|j: int| 0 <= j < n && rename_entry_spec(es0[j], rn).1 == Some(i)) by {
                        if hit == Some(i) {
                            assert(rename_entry_spec(es0[n - 1], rn).1 == Some(i));
                        }
                        if exists|j: int| 0 <= j < n && rename_entry_spec(es0[j], rn).1 == Some(i) {
                            let j = choose|j: int| 0 <= j < n && rename_entry_spec(es0[j], rn).1 == Some(i);
                            if j < n - 1 {
                                assert(exists|j: int| 0 <= j < n - 1 && rename_entry_spec(es0[j], rn).1 == Some(i));
                            }
                        }
                    }
                }
            }
            proof {
                lemma_view_arr(out@);
                assert(es0.take(n as int) == es0);
            }
            Json::Array(out)
        },
        other => other,
    }
}


pub open spec fn rename_sections(lf: Seq<(Seq<char>, JsonV)>, rn: Seq<(Seq<char>, Seq<char>)>) -> Seq<(Seq<char>, JsonV)> {
    lf.map_values(|p: (Seq<char>, JsonV)| (p.0, rename_section(p.1, rn)))
}

pub open spec fn sections_hit(lf: Seq<(Seq<char>, JsonV)>, rn: Seq<(Seq<char>, Seq<char>)>, i: int) -> bool {
    exists|j: int| 0 <= j < lf.len() && section_hit(lf[j].1, rn, i)
}

fn rename_sections_exec(lf: Vec<(String, Json)>, renames: &[(String, String)], applied: &mut Vec<bool>) -> (r: Vec<(String, Json)>)
    requires
        old(applied).len() == renames.len(),
    ensures
        view_obj(r@) == rename_sections(view_obj(lf@), rviews(renames@)),
        final(applied).len() == renames.len(),
        forall|i: int| 0 <= i < renames.len() ==> #[trigger] final(applied)@[i] == (old(applied)@[i] || sections_hit(view_obj(lf@), rviews(renames@), i)),
{
    let ghost rn = rviews(renames@);
    let ghost l0 = view_obj(lf@);
    proof {
        lemma_view_obj(lf@);
    }
    let ghost a0 = applied@;
    let mut src = lf;
    let mut out: Vec<(String, Json)> = Vec::new();
    let mut n: usize = 0;
    let total = src.len();
    while src.len() > 0
        invariant
            n + src.len() == total,
            l0.len() == total,
            view_obj(src@) == l0.skip(n as int),
            view_obj(out@) == rename_sections(l0.take(n as int), rn),
            applied.len() == renames.len(),
            rn == rviews(renames@),
            forall|i: int| 0 <= i < renames.len() ==> #[trigger] applied@[i] == (a0[i] || exists|j: int| 0 <= j < n && section_hit(l0[j].1, rn, i)),
        decreases src.len(),
    {
        proof {
            lemma_view_obj(src@);
            lemma_view_obj(out@);
        }
        let ghost old_src = src@;
        let ghost old_out = out@;
        let (k, v) = src.remove(0);
        assert(k@ == l0[n as int].0 && json_view(v) == l0[n as int].1) by {
            assert(view_obj(old_src)[0] == l0.skip(n as int)[0]);
        }
        let ghost vv = json_view(v);
        let r = rename_section_exec(v, renames, applied);
        out.push((k, r));
        n += 1;
        proof {
            lemma_view_obj(src@);
            lemma_view_obj(out@);
            lemma_view_obj(old_src);
            lemma_view_obj(old_out);
            assert forall|j: int| 0 <= j < src@.len() implies view_obj(src@)[j] == l0.skip(n as int)[j] by {
                assert(src@[j] == old_src[j + 1]);
                assert(view_obj(old_src)[j + 1] == l0.skip(n - 1)[j + 1]);
            }
            assert(view_obj(src@) =~= l0.skip(n as int));
            assert forall|j: int| 0 <= j < out@.len() implies view_obj(out@)[j] == rename_sections(l0.take(n as int), rn)[j] by {
                if j < n - 1 {
                    assert(out@[j] == old_out[j]);
                    assert(view_obj(old_out)[j] == rename_sections(l0.take(n - 1), rn)[j]);
                }
            }
            assert(view_obj(out@) =~= rename_sections(l0.take(n as int), rn));
            assert forall|i: int| 0 <= i < renames.len() implies #[trigger] applied@[i] == (a0[i] || exists|j: int| 0 <= j < n && section_hit(l0[j].1, rn, i)) by {
                if exists|j: int| 0 <= j < n && section_hit(l0[j].1, rn, i) {
                    let j = choose|j: int| 0 <= j < n && section_hit(l0[j].1, rn, i);
                    if j < n - 1 {
                        assert(exists|j: int| 0 <= j < n - 1 && section_hit(l0[j].1, rn, i));
                    }
                }
            }
        }
    }
    assert(l0.take(n as int) == l0);
    out
}

/// The `bar.layout` object's fields, as `pointer("/bar/layout")` finds them.
pub open spec fn layout_fields(d: JsonV) -> Option<Seq<(Seq<char>, JsonV)>> {
    match get(d, "bar"@) {
        Some(b) => match b {
            JsonV::Object(_) => match get(b, "layout"@) {
                Some(l) => match l {
                    JsonV::Object(lf) => Some(lf),
                    _ => None,
                },
                None => None,
            },
            _ => None,
        },
        None => None,
    }
}

/// The document with every layout entry renamed.
pub open spec fn after_layout(d: JsonV, rn: Seq<(Seq<char>, Seq<char>)>) -> JsonV {
    match layout_fields(d) {
        Some(lf) => set_at(
            d,
            "bar"@,
            set_at(get(d, "bar"@)->0, "layout"@, JsonV::Object(rename_sections(lf, rn))),
        ),
        None => d,
    }
}

pub open spec fn layout_hit(d: JsonV, rn: Seq<(Seq<char>, Seq<char>)>, i: int) -> bool {
    match layout_fields(d) {
        Some(lf) => sections_hit(lf, rn, i),
        None => false,
    }
}

fn rename_layout(d: Json, renames: &[(String, String)], applied: &mut Vec<bool>) -> (r: Json)
    requires
        old(applied).len() == renames.len(),
    ensures
        r@ == after_layout(d@, rviews(renames@)),
        final(applied).len() == renames.len(),
        forall|i: int| 0 <= i < renames.len() ==> #[trigger] final(applied)@[i] == (old(applied)@[i] || layout_hit(d@, rviews(renames@), i)),
{
    let ghost rn = rviews(renames@);
    let ghost dv = d@;
    match d {
        Json::Object(mut fs) => {
            proof {
                lemma_view_obj(fs@);
            }
            let bar_key = chars_of("bar");
            let bi = match find_key(&fs, bar_key.as_slice()) {
                Some(bi) => bi,
                None => {
                    return Json::Object(fs);
                },
            };
            let ghost fs0 = fs@;
            let mut slot: (String, Json) = (String::new(), Json::Null);
            fs.set_and_swap(bi, &mut slot);
            let (bk, bar) = slot;
            let ghost barv = json_view(bar);
            assert(barv == get(dv, "bar"@)->0);
            match bar {
                Json::Object(mut bf) => {
                    proof {
                        lemma_view_obj(bf@);
                    }
                    let layout_key = chars_of("layout");
                    match find_key(&bf, layout_key.as_slice()) {
                        Some(li) => {
                            let ghost bf0 = bf@;
                            let mut lslot: (String, Json) = (String::new(), Json::Null);
                            bf.set_and_swap(li, &mut lslot);
                            let (lk, lay) = lslot;
                            assert(json_view(lay) == get(barv, "layout"@)->0);
                            match lay {
                                Json::Object(lf) => {
                                    let nl = rename_sections_exec(lf, renames, applied);
                                    bf.set(li, (lk, Json::Object(nl)));
                                    fs.set(bi, (bk, Json::Object(bf)));
                                    proof {
                                        lemma_view_obj(bf@);
                                        lemma_view_obj(bf0);
                                        lemma_view_obj(fs@);
                                        lemma_view_obj(fs0);
                                        assert(view_obj(bf@) =~= view_obj(bf0).update(li as int, (view_obj(bf0)[li as int].0, JsonV::Object(rename_sections(view_obj(lf@), rn)))));
                                        assert(view_obj(fs@) =~= view_obj(fs0).update(bi as int, (view_obj(fs0)[bi as int].0, json_view(Json::Object(bf)))));
                                    }
                                    Json::Object(fs)
                                },
                                other => {
                                    bf.set(li, (lk, other));
                                    fs.set(bi, (bk, Json::Object(bf)));
                                    proof {
                                        lemma_view_obj(bf@);
                                        lemma_view_obj(bf0);
                                        lemma_view_obj(fs@);
                                        lemma_view_obj(fs0);
                                        assert(view_obj(bf@) =~= view_obj(bf0));
                                        assert(view_obj(fs@) =~= view_obj(fs0));
                                    }
                                    Json::Object(fs)
                                },
                            }
                        },
                        None => {
                            fs.set(bi, (bk, Json::Object(bf)));
                            proof {
                                lemma_view_obj(fs@);
                                lemma_view_obj(fs0);
                                assert(view_obj(fs@) =~= view_obj(fs0));
                            }
                            Json::Object(fs)
                        },
                    }
                },
                other => {
                    fs.set(bi, (bk, other));
                    proof {
                        lemma_view_obj(fs@);
                        lemma_view_obj(fs0);
                        assert(view_obj(fs@) =~= view_obj(fs0));
                    }
                    Json::Object(fs)
                },
            }
        },
        other => other,
    }
}


/// Is `s` one of `ids`?
pub fn contains_string(ids: &[String], s: &[char]) -> (r: bool)
    ensures
        r == sviews(ids@).contains(s@),
{
    let mut i: usize = 0;
    while i < ids.len()
        invariant
            i <= ids.len(),
            forall|j: int| 0 <= j < i ==> ids@[j]@ != s@,
        decreases ids.len() - i,
    {
        let c = chars_of(ids[i].as_str());
        if seq_eq(c.as_slice(), s) {
            assert(sviews(ids@)[i as int] == s@);
            return true;
        }
        i += 1;
    }
    assert(!sviews(ids@).contains(s@)) by {
        if sviews(ids@).contains(s@) {
            let j = choose|j: int| 0 <= j < sviews(ids@).len() && sviews(ids@)[j] == s@;
            assert(ids@[j]@ == s@);
        }
    }
    false
}

/// `disabledPlugins[]` after renames and pruning, and the pruned ids.
pub open spec fn map_disabled(
    dis: Seq<JsonV>,
    rn: Seq<(Seq<char>, Seq<char>)>,
    old: Seq<Seq<char>>,
    new: Seq<Seq<char>>,
) -> (Seq<JsonV>, Seq<Seq<char>>)
    decreases dis.len(),
{
    if dis.len() == 0 {
        (Seq::empty(), Seq::empty())
    } else {
        let (k, p) = map_disabled(dis.drop_last(), rn, old, new);
        let v = dis.last();
        match v {
            JsonV::Str(s) => match rename_index(rn, s) {
                Some(i) => (k.push(JsonV::Str(rn[i].1)), p),
                None => if old.contains(s) && !new.contains(s) {
                    (k, p.push(s))
                } else {
                    (k.push(v), p)
                },
            },
            _ => (k.push(v), p),
        }
    }
}

pub open spec fn disabled_entry_hit(v: JsonV, rn: Seq<(Seq<char>, Seq<char>)>, i: int) -> bool {
    match v {
        JsonV::Str(s) => rename_index(rn, s) == Some(i),
        _ => false,
    }
}

pub open spec fn disabled_hit(dis: Seq<JsonV>, rn: Seq<(Seq<char>, Seq<char>)>, i: int) -> bool {
    exists|j: int| 0 <= j < dis.len() && disabled_entry_hit(dis[j], rn, i)
}

fn map_disabled_exec(
    dis: Vec<Json>,
    renames: &[(String, String)],
    old_ids: &[String],
    new_ids: &[String],
    applied: &mut Vec<bool>,
) -> (r: (Vec<Json>, Vec<String>))
    requires
        old(applied).len() == renames.len(),
    ensures
        (view_arr(r.0@), sviews(r.1@)) == map_disabled(view_arr(dis@), rviews(renames@), sviews(old_ids@), sviews(new_ids@)),
        final(applied).len() == renames.len(),
        forall|i: int| 0 <= i < renames.len() ==> #[trigger] final(applied)@[i] == (old(applied)@[i] || disabled_hit(view_arr(dis@), rviews(renames@), i)),
{
    let ghost rn = rviews(renames@);
    let ghost os = sviews(old_ids@);
    let ghost ns = sviews(new_ids@);
    let ghost d0 = view_arr(dis@);
    proof {
        lemma_view_arr(dis@);
    }
    let ghost a0 = applied@;
    let mut src = dis;
    let mut kept: Vec<Json> = Vec::new();
    let mut pruned: Vec<String> = Vec::new();
    let mut n: usize = 0;
    let total = src.len();
    while src.len() > 0
        invariant
            n + src.len() == total,
            d0.len() == total,
            view_arr(src@) == d0.skip(n as int),
            (view_arr(kept@), sviews(pruned@)) == map_disabled(d0.take(n as int), rn, os, ns),
            applied.len() == renames.len(),
            rn == rviews(renames@),
            os == sviews(old_ids@),
            ns == sviews(new_ids@),
            forall|i: int| 0 <= i < renames.len() ==> #[trigger] applied@[i] == (a0[i] || exists|j: int| 0 <= j < n && disabled_entry_hit(d0[j], rn, i)),
        decreases src.len(),
    {
        proof {
            lemma_view_arr(src@);
            lemma_view_arr(kept@);
        }
        let ghost old_src = src@;
        let ghost old_kept = kept@;
        let ghost old_pruned = pruned@;
        let ghost old_ap = applied@;
        let v = src.remove(0);
        assert(json_view(v) == d0[n as int]) by {
            assert(view_arr(old_src)[0] == d0.skip(n as int)[0]);
        }
        let ghost pre = d0.take(n as int);
        let ghost cur = d0.take(n + 1);
        assert(cur.drop_last() == pre);
        assert(cur.last() == d0[n as int]);
        let ghost hit: Option<int> = match d0[n as int] {
            JsonV::Str(s) => rename_index(rn, s),
            _ => None,
        };
        match as_str_chars(&v) {
            None => {
                kept.push(v);
            },
            Some(s) => {
                match rename_lookup(renames, s.as_slice()) {
                    Some(i) => {
                        applied.set(i, true);
                        kept.push(Json::Str(renames[i].1.clone()));
                    },
                    None => {
                        if contains_string(old_ids, s.as_slice()) && !contains_string(new_ids, s.as_slice()) {
                            pruned.push(crate::text::string_of(s.as_slice()));
                        } else {
                            kept.push(v);
                        }
                    },
                }
            },
        }
        n += 1;
        proof {
            lemma_view_arr(src@);
            lemma_view_arr(kept@);
            lemma_view_arr(old_src);
            lemma_view_arr(old_kept);
            assert forall|j: int| 0 <= j < src@.len() implies view_arr(src@)[j] == d0.skip(n as int)[j] by {
                assert(src@[j] == old_src[j + 1]);
                assert(view_arr(old_src)[j + 1] == d0.skip(n - 1)[j + 1]);
            }
            assert(view_arr(src@) =~= d0.skip(n as int));
            let (mk, mp) = map_disabled(cur, rn, os, ns);
            assert(view_arr(kept@) =~= mk);
            assert(sviews(pruned@) =~= mp);
            assert forall|i: int| 0 <= i < renames.len() implies #[trigger] applied@[i] == (a0[i] || exists|j: int| 0 <= j < n && disabled_entry_hit(d0[j], rn, i)) by {
                if disabled_entry_hit(d0[n - 1], rn, i) {
                    assert(hit == Some(i));
                }
                if exists|j: int| 0 <= j < n && disabled_entry_hit(d0[j], rn, i) {
                    let j = choose|j: int| 0 <= j < n && disabled_entry_hit(d0[j], rn, i);
                    if j < n - 1 {
                        assert(exists|j: int| 0 <= j < n - 1 && disabled_entry_hit(d0[j], rn, i));
                    }
                }
            }
        }
    }
    assert(d0.take(n as int) == d0);
    (kept, pruned)
}


/// Every previously shipped first-party id is listed disabled.
pub open spec fn all_off(dis: Seq<JsonV>, old: Seq<Seq<char>>) -> bool {
    forall|k: int| 0 <= k < old.len() ==> dis.contains(JsonV::Str(#[trigger] old[k]))
}

fn all_off_exec(dis: &Vec<Json>, old_ids: &[String]) -> (r: bool)
    ensures
        r == all_off(view_arr(dis@), sviews(old_ids@)),
{
    proof {
        lemma_view_arr(dis@);
    }
    let ghost d = view_arr(dis@);
    let ghost os = sviews(old_ids@);
    let mut k: usize = 0;
    while k < old_ids.len()
        invariant
            k <= old_ids.len(),
            d == view_arr(dis@),
            d.len() == dis.len(),
            os == sviews(old_ids@),
            forall|m: int| 0 <= m < k ==> d.contains(JsonV::Str(#[trigger] os[m])),
        decreases old_ids.len() - k,
    {
        let id = chars_of(old_ids[k].as_str());
        let mut found = false;
        let mut j: usize = 0;
        while j < dis.len()
            invariant
                j <= dis.len(),
                d == view_arr(dis@),
                d.len() == dis.len(),
                id@ == os[k as int],
                found ==> d.contains(JsonV::Str(os[k as int])),
                !found ==> forall|m: int| 0 <= m < j ==> d[m] != JsonV::Str(os[k as int]),
            decreases dis.len() - j,
        {
            if crate::json::is_str(&dis[j], id.as_slice()) {
                assert(d[j as int] == JsonV::Str(os[k as int]));
                found = true;
            }
            j += 1;
        }
        if !found {
            assert(!d.contains(JsonV::Str(os[k as int])));
            return false;
        }
        k += 1;
    }
    true
}

pub open spec fn is_target(rn: Seq<(Seq<char>, Seq<char>)>, s: Seq<char>) -> bool {
    exists|i: int| 0 <= i < rn.len() && rn[i].1 == s
}

/// Ids the new pin ships that the old pin did not, rename targets excluded
/// (new-pin order).
pub open spec fn appeared_candidates(
    new: Seq<Seq<char>>,
    old: Seq<Seq<char>>,
    rn: Seq<(Seq<char>, Seq<char>)>,
) -> Seq<Seq<char>>
    decreases new.len(),
{
    if new.len() == 0 {
        Seq::empty()
    } else {
        let r = appeared_candidates(new.drop_last(), old, rn);
        if !old.contains(new.last()) && !is_target(rn, new.last()) {
            r.push(new.last())
        } else {
            r
        }
    }
}

fn is_target_exec(renames: &[(String, String)], s: &[char]) -> (r: bool)
    ensures
        r == is_target(rviews(renames@), s@),
{
    let mut i: usize = 0;
    while i < renames.len()
        invariant
            i <= renames.len(),
            forall|j: int| 0 <= j < i ==> renames@[j].1@ != s@,
        decreases renames.len() - i,
    {
        let c = chars_of(renames[i].1.as_str());
        if seq_eq(c.as_slice(), s) {
            assert(rviews(renames@)[i as int].1 == s@);
            return true;
        }
        i += 1;
    }
    assert(!is_target(rviews(renames@), s@)) by {
        if is_target(rviews(renames@), s@) {
            let j = choose|j: int| 0 <= j < renames@.len() && rviews(renames@)[j].1 == s@;
            assert(renames@[j].1@ == s@);
        }
    }
    false
}

fn appeared_exec(new_ids: &[String], old_ids: &[String], renames: &[(String, String)]) -> (r: Vec<String>)
    ensures
        sorted(sviews(r@)),
        sviews(r@).to_multiset() == appeared_candidates(sviews(new_ids@), sviews(old_ids@), rviews(renames@)).to_multiset(),
{
    let ghost ns = sviews(new_ids@);
    let mut c: Vec<String> = Vec::new();
    let mut i: usize = 0;
    while i < new_ids.len()
        invariant
            i <= new_ids.len(),
            ns == sviews(new_ids@),
            sviews(c@) == appeared_candidates(ns.take(i as int), sviews(old_ids@), rviews(renames@)),
        decreases new_ids.len() - i,
    {
        let id = chars_of(new_ids[i].as_str());
        let ghost cur = ns.take(i + 1);
        assert(cur.drop_last() == ns.take(i as int));
        assert(cur.last() == id@);
        if !contains_string(old_ids, id.as_slice()) && !is_target_exec(renames, id.as_slice()) {
            c.push(new_ids[i].clone());
        }
        i += 1;
        assert(sviews(c@) =~= appeared_candidates(cur, sviews(old_ids@), rviews(renames@)));
    }
    assert(ns.take(new_ids.len() as int) == ns);
    sort_strings(c)
}

spec fn pre_inv(p: Seq<JsonV>, x: JsonV) -> bool {
    dedupe(p).contains(x) <==> p.contains(x)
}

/// Values in order with every repeat of an earlier value dropped.
pub open spec fn dedupe(s: Seq<JsonV>) -> Seq<JsonV>
    decreases s.len(),
{
    if s.len() == 0 {
        Seq::empty()
    } else {
        let r = dedupe(s.drop_last());
        if s.drop_last().contains(s.last()) {
            r
        } else {
            r.push(s.last())
        }
    }
}

fn dedupe_exec(v: Vec<Json>) -> (r: Vec<Json>)
    ensures
        view_arr(r@) == dedupe(view_arr(v@)),
{
    let ghost v0 = view_arr(v@);
    proof {
        lemma_view_arr(v@);
    }
    let mut src = v;
    let mut out: Vec<Json> = Vec::new();
    let mut n: usize = 0;
    let total = src.len();
    while src.len() > 0
        invariant
            n + src.len() == total,
            v0.len() == total,
            view_arr(src@) == v0.skip(n as int),
            view_arr(out@) == dedupe(v0.take(n as int)),
            forall|x: JsonV| #[trigger] pre_inv(v0.take(n as int), x),
        decreases src.len(),
    {
        proof {
            lemma_view_arr(src@);
            lemma_view_arr(out@);
        }
        let ghost old_src = src@;
        let ghost old_out = out@;
        let ghost pre = v0.take(n as int);
        let ghost cur = v0.take(n + 1);
        let x = src.remove(0);
        assert(json_view(x) == v0[n as int]) by {
            assert(view_arr(old_src)[0] == v0.skip(n as int)[0]);
        }
        assert(cur.drop_last() == pre);
        assert(cur.last() == v0[n as int]);
        let mut seen = false;
        let mut j: usize = 0;
        while j < out.len()
            invariant
                j <= out.len(),
                view_arr(out@) == dedupe(pre),
                view_arr(out@).len() == out.len(),
                json_view(x) == v0[n as int],
                seen ==> dedupe(pre).contains(json_view(x)),
                !seen ==> forall|m: int| 0 <= m < j ==> dedupe(pre)[m] != json_view(x),
            decreases out.len() - j,
        {
            proof {
                lemma_view_arr(out@);
            }
            if json_eq(&out[j], &x) {
                assert(dedupe(pre)[j as int] == json_view(x));
                seen = true;
            }
            j += 1;
        }
        let ghost xv = json_view(x);
        assert(pre_inv(pre, xv));
        if !seen {
            assert(!dedupe(pre).contains(json_view(x)));
            out.push(x);
        }
        n += 1;
        proof {
            lemma_view_arr(src@);
            lemma_view_arr(out@);
            lemma_view_arr(old_src);
            lemma_view_arr(old_out);
            assert forall|j: int| 0 <= j < src@.len() implies view_arr(src@)[j] == v0.skip(n as int)[j] by {
                assert(src@[j] == old_src[j + 1]);
                assert(view_arr(old_src)[j + 1] == v0.skip(n - 1)[j + 1]);
            }
            assert(view_arr(src@) =~= v0.skip(n as int));
            assert(view_arr(out@) =~= dedupe(cur));
            let dp = dedupe(pre);
            let dc = dedupe(cur);
            assert(dc == (if pre.contains(cur.last()) { dp } else { dp.push(cur.last()) }));
            assert forall|y: JsonV| dc.contains(y) implies cur.contains(y) by {
                let k = choose|k: int| 0 <= k < dc.len() && dc[k] == y;
                if k < dp.len() {
                    assert(dp[k] == y);
                    assert(dp.contains(y));
                    assert(pre_inv(pre, y));
                    let m = choose|m: int| 0 <= m < pre.len() && pre[m] == y;
                    assert(cur[m] == y);
                } else {
                    assert(cur[cur.len() - 1] == y);
                }
            }
            assert forall|y: JsonV| cur.contains(y) implies dc.contains(y) by {
                let k = choose|k: int| 0 <= k < cur.len() && cur[k] == y;
                if k < pre.len() {
                    assert(pre[k] == y);
                    assert(pre.contains(y));
                    assert(pre_inv(pre, y));
                    let m = choose|m: int| 0 <= m < dp.len() && dp[m] == y;
                    assert(dc[m] == y);
                } else if pre.contains(y) {
                    assert(pre_inv(pre, y));
                    let m = choose|m: int| 0 <= m < dp.len() && dp[m] == y;
                    assert(dc[m] == y);
                } else {
                    assert(dc[dc.len() - 1] == y);
                }
            }
        }
    }
    assert(v0.take(n as int) == v0);
    out
}

/// The renames (in order) that matched at least one occurrence.
pub open spec fn hit_renames(rn: Seq<(Seq<char>, Seq<char>)>, hit: spec_fn(int) -> bool, n: int) -> Seq<(Seq<char>, Seq<char>)>
    decreases n,
{
    if n <= 0 {
        Seq::empty()
    } else {
        let r = hit_renames(rn, hit, n - 1);
        if hit(n - 1) {
            r.push(rn[n - 1])
        } else {
            r
        }
    }
}


proof fn lemma_after_layout_disabled(d: JsonV, rn: Seq<(Seq<char>, Seq<char>)>)
    ensures
        get(after_layout(d, rn), "disabledPlugins"@) == get(d, "disabledPlugins"@),
{
    reveal_strlit("bar");
    reveal_strlit("disabledPlugins");
    assert("bar"@ != "disabledPlugins"@) by {
        assert("bar"@.len() != "disabledPlugins"@.len());
    }
    match layout_fields(d) {
        Some(lf) => {
            lemma_set_at_get(
                d,
                "bar"@,
                set_at(get(d, "bar"@)->0, "layout"@, JsonV::Object(rename_sections(lf, rn))),
                "disabledPlugins"@,
            );
        },
        None => {},
    }
}

/// Why a shell.json cannot be reconciled.
#[derive(PartialEq, Eq, Debug)]
pub enum ReconcileError {
    /// The document has no `disabledPlugins` field (or is not an object).
    NoDisabledArray,
    /// `disabledPlugins` exists but is not an array.
    DisabledNotArray,
}

impl ReconcileError {
    pub fn message(&self) -> (r: String)
        ensures
            r@ == match *self {
                ReconcileError::NoDisabledArray => "shell.json has no disabledPlugins array"@,
                ReconcileError::DisabledNotArray => "shell.json disabledPlugins is not an array"@,
            },
    {
        match self {
            ReconcileError::NoDisabledArray => "shell.json has no disabledPlugins array".to_owned(),
            ReconcileError::DisabledNotArray => "shell.json disabledPlugins is not an array".to_owned(),
        }
    }
}

/// Outcome of a down-window reconciliation.
#[derive(Debug)]
pub struct ReconcileReport {
    /// Supplied renames that matched at least one occurrence in the doc.
    pub renamed: Vec<(String, String)>,
    /// First-party ids dropped from `disabledPlugins[]`: the new pin no
    /// longer ships them and they were not renamed.
    pub pruned: Vec<String>,
    /// Ids the new pin ships that the old pin did not (rename targets
    /// excluded — those are tracked under `renamed`).
    pub appeared: Vec<String>,
    /// True when `appeared` ids were appended to `disabledPlugins[]`,
    /// preserving an all-off selection; false = left absent, i.e. enabled by
    /// upstream default.
    pub appeared_kept_off: bool,
}

impl View for ReconcileReport {
    type V = (Seq<(Seq<char>, Seq<char>)>, Seq<Seq<char>>, Seq<Seq<char>>, bool);

    open spec fn view(&self) -> Self::V {
        (rviews(self.renamed@), sviews(self.pruned@), sviews(self.appeared@), self.appeared_kept_off)
    }
}

impl ReconcileReport {
    /// Nothing renamed, pruned or appeared.
    pub fn is_noop(&self) -> (r: bool)
        ensures
            r == (self.renamed.len() == 0 && self.pruned.len() == 0 && self.appeared.len() == 0),
    {
        self.renamed.len() == 0 && self.pruned.len() == 0 && self.appeared.len() == 0
    }
}

impl Default for ReconcileReport {
    fn default() -> (r: Self)
        ensures
            r.renamed.len() == 0 && r.pruned.len() == 0 && r.appeared.len() == 0 && !r.appeared_kept_off,
    {
        ReconcileReport { renamed: Vec::new(), pruned: Vec::new(), appeared: Vec::new(), appeared_kept_off: false }
    }
}

/// Whether rename `i` matched a layout entry or a `disabledPlugins[]` entry.
pub open spec fn rename_applied(d: JsonV, dis: Seq<JsonV>, rn: Seq<(Seq<char>, Seq<char>)>) -> spec_fn(int) -> bool {
    |i: int| layout_hit(d, rn, i) || disabled_hit(dis, rn, i)
}

/// The new `disabledPlugins[]`: renamed/pruned entries, then (all-off only)
/// the appeared ids, first occurrences kept.
pub open spec fn new_disabled(kept: Seq<JsonV>, appeared: Seq<Seq<char>>, kept_off: bool) -> Seq<JsonV> {
    dedupe(kept + if kept_off { str_array(appeared) } else { Seq::empty() })
}

/// Reconcile a user-mutated `shell.json` against a new pin's first-party id
/// set (call it with the shell down). Renames apply across `bar.layout`
/// entries (string or `{id: …}` object) and `disabledPlugins[]`; gone
/// first-party ids of the previous pin are pruned; appeared ids stay off
/// under an all-off selection and follow the upstream default otherwise;
/// everything else passes through untouched.
pub fn reconcile(
    old_doc: Json,
    old_ids: &[String],
    new_ids: &[String],
    renames: &[(String, String)],
) -> (r: Result<(Json, ReconcileReport), ReconcileError>)
    ensures
        match r {
            Err(e) => match get(old_doc@, "disabledPlugins"@) {
                None => e == ReconcileError::NoDisabledArray,
                Some(v) => !(v is Array) && e == ReconcileError::DisabledNotArray,
            },
            Ok((doc, rep)) => match get(old_doc@, "disabledPlugins"@) {
                Some(JsonV::Array(dis)) => {
                    let rn = rviews(renames@);
                    let os = sviews(old_ids@);
                    let ns = sviews(new_ids@);
                    let (kept, pruned) = map_disabled(dis, rn, os, ns);
                    &&& sorted(rep@.2)
                    &&& rep@.2.to_multiset() == appeared_candidates(ns, os, rn).to_multiset()
                    &&& rep@.3 == (all_off(dis, os) && rep@.2.len() > 0)
                    &&& rep@.1 == pruned
                    &&& rep@.0 == hit_renames(rn, rename_applied(old_doc@, dis, rn), rn.len() as int)
                    &&& doc@ == set_at(
                        after_layout(old_doc@, rn),
                        "disabledPlugins"@,
                        JsonV::Array(new_disabled(kept, rep@.2, rep@.3)),
                    )
                },
                _ => false,
            },
        },
{
    let ghost d0 = old_doc@;
    let ghost rn = rviews(renames@);
    let mut applied: Vec<bool> = Vec::new();
    while applied.len() < renames.len()
        invariant
            applied.len() <= renames.len(),
            forall|i: int| 0 <= i < applied.len() ==> !applied@[i],
        decreases renames.len() - applied.len(),
    {
        applied.push(false);
    }
    let doc = rename_layout(old_doc, renames, &mut applied);
    proof {
        lemma_after_layout_disabled(d0, rn);
    }
    let ghost d1 = doc@;
    match doc {
        Json::Object(mut fs) => {
            proof {
                lemma_view_obj(fs@);
            }
            let key = chars_of("disabledPlugins");
            let di = match find_key(&fs, key.as_slice()) {
                Some(di) => di,
                None => {
                    return Err(ReconcileError::NoDisabledArray);
                },
            };
            let ghost fs0 = fs@;
            let mut slot: (String, Json) = (String::new(), Json::Null);
            fs.set_and_swap(di, &mut slot);
            let (dk, dv) = slot;
            match dv {
                Json::Array(dis) => {
                    let ghost dis0 = view_arr(dis@);
                    let ghost ap1 = applied@;
                    let off = all_off_exec(&dis, old_ids);
                    let (kept, pruned) = map_disabled_exec(dis, renames, old_ids, new_ids, &mut applied);
                    let appeared = appeared_exec(new_ids, old_ids, renames);
                    let kept_off = off && appeared.len() > 0;
                    let mut out = kept;
                    let ghost k0 = view_arr(out@);
                    if kept_off {
                        let mut j: usize = 0;
                        while j < appeared.len()
                            invariant
                                j <= appeared.len(),
                                view_arr(out@) == k0 + str_array(sviews(appeared@.take(j as int))),
                            decreases appeared.len() - j,
                        {
                            proof {
                                lemma_view_arr(out@);
                            }
                            let ghost ob = out@;
                            out.push(Json::Str(appeared[j].clone()));
                            j += 1;
                            proof {
                                lemma_view_arr(out@);
                                lemma_view_arr(ob);
                                assert(sviews(appeared@.take(j as int)) =~= sviews(appeared@.take(j - 1)).push(appeared@[j - 1]@));
                                let sa = sviews(appeared@.take(j - 1));
                                assert(view_arr(out@) =~= view_arr(ob).push(JsonV::Str(appeared@[j - 1]@)));
                                assert(str_array(sa.push(appeared@[j - 1]@)) =~= str_array(sa).push(JsonV::Str(appeared@[j - 1]@)));
                                assert(view_arr(out@) =~= k0 + str_array(sviews(appeared@.take(j as int))));
                            }
                        }
                        assert(appeared@.take(appeared.len() as int) == appeared@);
                    } else {
                        assert(view_arr(out@) =~= k0 + Seq::<JsonV>::empty());
                    }
                    let fin = dedupe_exec(out);
                    fs.set(di, (dk, Json::Array(fin)));
                    let mut renamed: Vec<(String, String)> = Vec::new();
                    let mut i: usize = 0;
                    while i < renames.len()
                        invariant
                            i <= renames.len(),
                            applied.len() == renames.len(),
                            rn == rviews(renames@),
                            forall|m: int| 0 <= m < renames.len() ==> #[trigger] applied@[m] == rename_applied(d0, dis0, rn)(m),
                            rviews(renamed@) == hit_renames(rn, rename_applied(d0, dis0, rn), i as int),
                        decreases renames.len() - i,
                    {
                        if applied[i] {
                            renamed.push((renames[i].0.clone(), renames[i].1.clone()));
                        }
                        i += 1;
                        assert(rviews(renamed@) =~= hit_renames(rn, rename_applied(d0, dis0, rn), i as int));
                    }
                    let report = ReconcileReport {
                        renamed,
                        pruned,
                        appeared,
                        appeared_kept_off: kept_off,
                    };
                    proof {
                        lemma_view_obj(fs@);
                        lemma_view_obj(fs0);
                        assert(view_obj(fs@) =~= view_obj(fs0).update(di as int, (view_obj(fs0)[di as int].0, JsonV::Array(view_arr(fin@)))));
                    }
                    Ok((Json::Object(fs), report))
                },
                _ => Err(ReconcileError::DisabledNotArray),
            }
        },
        _ => Err(ReconcileError::NoDisabledArray),
    }
}

/// Reconciliation passes everything but the bar layout and
/// `disabledPlugins[]` through untouched: every other top-level field
/// (third-party `plugins`, unknown keys, `version`) and every other field
/// of the bar (its `id`).
pub proof fn law_reconcile_keeps_other_fields(
    d: JsonV,
    rn: Seq<(Seq<char>, Seq<char>)>,
    dis: Seq<JsonV>,
    k: Seq<char>,
    bk: Seq<char>,
)
    requires
        k != "bar"@,
        k != "disabledPlugins"@,
        bk != "layout"@,
    ensures
        get(set_at(after_layout(d, rn), "disabledPlugins"@, JsonV::Array(dis)), k) == get(d, k),
        get(d, "bar"@) matches Some(b) ==> (get(
            set_at(after_layout(d, rn), "disabledPlugins"@, JsonV::Array(dis)),
            "bar"@,
        ) matches Some(b2) && get(b2, bk) == get(b, bk)),
{
    crate::selection::lemma_key_names();
    let a = after_layout(d, rn);
    crate::json::lemma_set_at_get(a, "disabledPlugins"@, JsonV::Array(dis), k);
    crate::json::lemma_set_at_get(a, "disabledPlugins"@, JsonV::Array(dis), "bar"@);
    match layout_fields(d) {
        Some(lf) => {
            let b = get(d, "bar"@)->0;
            let nb = set_at(b, "layout"@, JsonV::Object(rename_sections(lf, rn)));
            crate::json::lemma_set_at_get(d, "bar"@, nb, k);
            crate::json::lemma_set_at_get_same(d, "bar"@, nb);
            crate::json::lemma_set_at_get(b, "layout"@, JsonV::Object(rename_sections(lf, rn)), bk);
        },
        None => {},
    }
}


/// The generated config does not depend on the order (or repetition) in
/// which the pin's ids were found: two id lists with the same ids generate
/// the same document.
pub proof fn law_generate_is_order_free(a: Seq<Seq<char>>, b: Seq<Seq<char>>, ra: JsonV, rb: JsonV)
    requires
        a.to_set() == b.to_set(),
        exists|d: Seq<Seq<char>>| #![trigger all_off_doc(d)] sorted_strict(d) && d.to_set() == a.to_set() && ra == all_off_doc(d),
        exists|d: Seq<Seq<char>>| #![trigger all_off_doc(d)] sorted_strict(d) && d.to_set() == b.to_set() && rb == all_off_doc(d),
    ensures
        ra == rb,
{
    let da = choose|d: Seq<Seq<char>>| #![trigger all_off_doc(d)] sorted_strict(d) && d.to_set() == a.to_set() && ra == all_off_doc(d);
    let db = choose|d: Seq<Seq<char>>| #![trigger all_off_doc(d)] sorted_strict(d) && d.to_set() == b.to_set() && rb == all_off_doc(d);
    crate::text::lemma_sorted_strict_unique(da, db);
}


/// Where one `disabledPlugins[]` entry goes in a reconciliation: renamed,
/// pruned (`None`), or kept as it is.
pub open spec fn mapped_entry(
    v: JsonV,
    rn: Seq<(Seq<char>, Seq<char>)>,
    old: Seq<Seq<char>>,
    new: Seq<Seq<char>>,
) -> Option<JsonV> {
    match v {
        JsonV::Str(s) => match rename_index(rn, s) {
            Some(i) => Some(JsonV::Str(rn[i].1)),
            None => if old.contains(s) && !new.contains(s) {
                None
            } else {
                Some(v)
            },
        },
        _ => Some(v),
    }
}

proof fn lemma_map_disabled_keeps(
    dis: Seq<JsonV>,
    rn: Seq<(Seq<char>, Seq<char>)>,
    old: Seq<Seq<char>>,
    new: Seq<Seq<char>>,
    j: int,
)
    requires
        0 <= j < dis.len(),
        mapped_entry(dis[j], rn, old, new) is Some,
    ensures
        map_disabled(dis, rn, old, new).0.contains(mapped_entry(dis[j], rn, old, new)->0),
    decreases dis.len(),
{
    let (k, p) = map_disabled(dis.drop_last(), rn, old, new);
    if j < dis.len() - 1 {
        lemma_map_disabled_keeps(dis.drop_last(), rn, old, new, j);
        assert(dis.drop_last()[j] == dis[j]);
        let w = mapped_entry(dis[j], rn, old, new)->0;
        let m = choose|m: int| 0 <= m < k.len() && k[m] == w;
        let r = map_disabled(dis, rn, old, new).0;
        assert(r == k || r == k.push(r.last()));
        assert(r[m] == k[m]);
    } else {
        let r = map_disabled(dis, rn, old, new).0;
        assert(dis.last() == dis[j]);
        assert(r == k.push(mapped_entry(dis[j], rn, old, new)->0));
        assert(r[k.len() as int] == mapped_entry(dis[j], rn, old, new)->0);
    }
}

proof fn lemma_dedupe_keeps(s: Seq<JsonV>, x: JsonV)
    requires
        s.contains(x),
    ensures
        dedupe(s).contains(x),
    decreases s.len(),
{
    let r = dedupe(s.drop_last());
    if s.drop_last().contains(x) {
        lemma_dedupe_keeps(s.drop_last(), x);
        let m = choose|m: int| 0 <= m < r.len() && r[m] == x;
        if !s.drop_last().contains(s.last()) {
            assert(dedupe(s)[m] == x);
        }
    } else {
        let j = choose|j: int| 0 <= j < s.len() && s[j] == x;
        if j < s.len() - 1 {
            assert(s.drop_last()[j] == x);
        }
        assert(s.last() == x);
        assert(dedupe(s) == r.push(x));
        assert(dedupe(s)[r.len() as int] == x);
    }
}

proof fn lemma_appeared_has(new: Seq<Seq<char>>, old: Seq<Seq<char>>, rn: Seq<(Seq<char>, Seq<char>)>, k: int)
    requires
        0 <= k < new.len(),
        !old.contains(new[k]),
        !is_target(rn, new[k]),
    ensures
        appeared_candidates(new, old, rn).contains(new[k]),
    decreases new.len(),
{
    let r = appeared_candidates(new.drop_last(), old, rn);
    if k < new.len() - 1 {
        assert(new.drop_last()[k] == new[k]);
        lemma_appeared_has(new.drop_last(), old, rn, k);
        let m = choose|m: int| 0 <= m < r.len() && r[m] == new[k];
        let a = appeared_candidates(new, old, rn);
        assert(a == r || a == r.push(new.last()));
        assert(a[m] == r[m]);
    } else {
        assert(new.last() == new[k]);
        let a = appeared_candidates(new, old, rn);
        assert(a == r.push(new[k]));
        assert(a[r.len() as int] == new[k]);
    }
}

/// An all-off selection survives a pin bump: when every first-party id of
/// the old pin was disabled, every id the new pin ships is disabled after
/// reconciliation, provided each rename takes an id the new pin no longer
/// ships (one rename per id) from the old pin's set.
pub proof fn law_all_off_survives_a_bump(
    dis: Seq<JsonV>,
    rn: Seq<(Seq<char>, Seq<char>)>,
    old: Seq<Seq<char>>,
    new: Seq<Seq<char>>,
    appeared: Seq<Seq<char>>,
)
    requires
        all_off(dis, old),
        appeared.to_multiset() == appeared_candidates(new, old, rn).to_multiset(),
        forall|i: int| 0 <= i < rn.len() ==> old.contains(#[trigger] rn[i].0) && !new.contains(rn[i].0),
        forall|i: int, j: int| 0 <= i < j < rn.len() ==> rn[i].0 != rn[j].0,
    ensures
        forall|k: int|
            0 <= k < new.len() ==> new_disabled(
                map_disabled(dis, rn, old, new).0,
                appeared,
                all_off(dis, old) && appeared.len() > 0,
            ).contains(JsonV::Str(#[trigger] new[k])),
{
    broadcast use vstd::seq_lib::group_to_multiset_ensures;
    let kept = map_disabled(dis, rn, old, new).0;
    let kept_off = all_off(dis, old) && appeared.len() > 0;
    let tail = if kept_off {
        str_array(appeared)
    } else {
        Seq::<JsonV>::empty()
    };
    assert forall|k: int| 0 <= k < new.len() implies new_disabled(kept, appeared, kept_off).contains(
        JsonV::Str(#[trigger] new[k]),
    ) by {
        let id = new[k];
        let x = JsonV::Str(id);
        if old.contains(id) {
            let m = choose|m: int| 0 <= m < old.len() && old[m] == id;
            assert(dis.contains(JsonV::Str(old[m])));
            let j = choose|j: int| 0 <= j < dis.len() && dis[j] == x;
            assert(rename_index(rn, id) is None) by {
                if exists|i: int| is_last_source(rn, id, i) {
                    let i = choose|i: int| is_last_source(rn, id, i);
                    assert(!new.contains(rn[i].0));
                }
            }
            assert(mapped_entry(dis[j], rn, old, new) == Some(x));
            lemma_map_disabled_keeps(dis, rn, old, new, j);
            let c = choose|c: int| 0 <= c < kept.len() && kept[c] == x;
            assert((kept + tail)[c] == x);
            lemma_dedupe_keeps(kept + tail, x);
        } else if is_target(rn, id) {
            let i = choose|i: int| 0 <= i < rn.len() && rn[i].1 == id;
            let src = rn[i].0;
            assert(old.contains(src));
            let m = choose|m: int| 0 <= m < old.len() && old[m] == src;
            assert(dis.contains(JsonV::Str(old[m])));
            let j = choose|j: int| 0 <= j < dis.len() && dis[j] == JsonV::Str(src);
            assert(is_last_source(rn, src, i));
            lemma_rename_index(rn, src, i);
            assert(mapped_entry(dis[j], rn, old, new) == Some(x));
            lemma_map_disabled_keeps(dis, rn, old, new, j);
            let c = choose|c: int| 0 <= c < kept.len() && kept[c] == x;
            assert((kept + tail)[c] == x);
            lemma_dedupe_keeps(kept + tail, x);
        } else {
            lemma_appeared_has(new, old, rn, k);
            assert(appeared_candidates(new, old, rn).to_multiset().count(id) > 0);
            assert(appeared.contains(id));
            let m = choose|m: int| 0 <= m < appeared.len() && appeared[m] == id;
            assert(kept_off);
            assert(tail[m] == x);
            assert((kept + tail)[kept.len() + m] == x);
            lemma_dedupe_keeps(kept + tail, x);
        }
    }
}


proof fn lemma_hit_listed(rn: Seq<(Seq<char>, Seq<char>)>, hit: spec_fn(int) -> bool, n: int, i: int)
    requires
        0 <= i < n <= rn.len(),
        hit(i),
    ensures
        hit_renames(rn, hit, n).contains(rn[i]),
    decreases n,
{
    let r = hit_renames(rn, hit, n - 1);
    if i < n - 1 {
        lemma_hit_listed(rn, hit, n - 1, i);
        let m = choose|m: int| 0 <= m < r.len() && r[m] == rn[i];
        assert(hit_renames(rn, hit, n) == r || hit_renames(rn, hit, n) == r.push(rn[n - 1]));
        assert(hit_renames(rn, hit, n)[m] == r[m]);
    } else {
        assert(hit_renames(rn, hit, n) == r.push(rn[i]));
        assert(hit_renames(rn, hit, n)[r.len() as int] == rn[i]);
    }
}

/// A rename that takes effect on a bar layout entry is reported: when a
/// section of `bar.layout` holds the rename's source, as a string or as an
/// object whose `id` it is, the rename is listed among the renames the
/// reconciliation applied (whatever `disabledPlugins[]` holds). The rename
/// is the effective one for its source (no later rename of the same id).
pub proof fn law_layout_rename_is_reported(
    d: JsonV,
    dis: Seq<JsonV>,
    rn: Seq<(Seq<char>, Seq<char>)>,
    i: int,
    key: Seq<char>,
    j: int,
)
    requires
        0 <= i < rn.len(),
        forall|k: int| i < k < rn.len() ==> rn[k].0 != rn[i].0,
        crate::selection::section_arr(d, key) matches Some(a) && 0 <= j < a.len() && (a[j] == JsonV::Str(rn[i].0)
            || (a[j] is Object && get(a[j], "id"@) == Some(JsonV::Str(rn[i].0)))),
    ensures
        hit_renames(rn, rename_applied(d, dis, rn), rn.len() as int).contains(rn[i]),
{
    let a = crate::selection::section_arr(d, key)->0;
    let lf = layout_fields(d)->0;
    assert(is_last_source(rn, rn[i].0, i));
    lemma_rename_index(rn, rn[i].0, i);
    let k = key_index(lf, key)->0;
    crate::json::lemma_key_index_some(lf, key);
    assert(lf[k].1 == JsonV::Array(a));
    assert(rename_entry_spec(a[j], rn).1 == Some(i)) by {
        if a[j] != JsonV::Str(rn[i].0) {
            match a[j] {
                JsonV::Object(fs) => {
                    let q = key_index(fs, "id"@)->0;
                    assert(fs[q].1 == JsonV::Str(rn[i].0));
                },
                _ => {},
            }
        }
    }
    assert(section_hit(lf[k].1, rn, i));
    assert(sections_hit(lf, rn, i));
    assert(layout_hit(d, rn, i));
    assert(rename_applied(d, dis, rn)(i));
    lemma_hit_listed(rn, rename_applied(d, dis, rn), rn.len() as int, i);
}

} // verus!

