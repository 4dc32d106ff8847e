//! Surgical `shell.json` edits: enabling and disabling one plugin while every
//! other field, and the order of every key, stays as it was.
//!
//! Storage rules:
//! - first-party (`omarchy.*`) non-bar: enabled unless listed in
//!   `disabledPlugins[]`; disable lists it (and scrubs active spots), enable
//!   delists it
//! - third-party: enabled when the id appears in `plugins[]` or a layout
//!   section; enable appends, disable scrubs (never listed as disabled)
//! - bar widgets also need a layout section; enabling places them unless
//!   already present anywhere
//! - the bar itself cannot be switched off
use vstd::prelude::*;

pub mod laws;
pub mod order;

use crate::json::{
    arr_at, arr_edit, arr_slot_ok, find_key, get, json_view, lemma_get_field, lemma_set_field, lemma_restore_field, lemma_with_entry_get,
    lemma_view_arr, lemma_view_obj, put_arr, remove_str, set_at, sorted_insert, str_value,
    take_str, contains_str_value, ensure_entry, view_arr, view_obj, with_entry, has_key, ArrEdit,
    Json, JsonV,
};
use crate::shelljson::layout_fields;
use crate::text::{chars_of, eq_str, starts_with, starts_with_str};

verus! {

/// The id of the bar itself.
pub const BAR_ID: &'static str = "omarchy.bar";

/// Bar layout section for widget placement.
#[derive(Debug, Clone, Copy, PartialEq, Eq, Structural)]
pub enum Section {
    Left,
    Center,
    Right,
}

pub open spec fn section_key(s: Section) -> Seq<char> {
    match s {
        Section::Left => "left"@,
        Section::Center => "center"@,
        Section::Right => "right"@,
    }
}

impl Section {
    /// The section's field name under `bar.layout`.
    pub fn key(self) -> (r: &'static str)
        ensures
            r@ == section_key(self),
    {
        match self {
            Section::Left => "left",
            Section::Center => "center",
            Section::Right => "right",
        }
    }
}

/// How the plugin renders: decides whether enabling also needs a layout slot.
#[derive(Debug, Clone, Copy, PartialEq, Eq, Structural)]
pub enum PluginKind {
    BarWidget,
    Regular,
}

/// The reserved first-party namespace.
pub open spec fn first_party(id: Seq<char>) -> bool {
    starts_with(id, "omarchy."@)
}

/// First-party ids live in the reserved `omarchy.` namespace.
pub fn is_first_party(id: &str) -> (r: bool)
    ensures
        r == first_party(id@),
{
    let c = chars_of(id);
    starts_with_str(c.as_slice(), "omarchy.")
}

/// Result of an edit: whether anything changed, and why.
#[derive(Debug, Clone, PartialEq, Eq)]
pub enum Outcome {
    Changed(&'static str),
    Unchanged(&'static str),
}

impl Outcome {
    pub fn changed(&self) -> (r: bool)
        ensures
            r == (*self is Changed),
    {
        match self {
            Outcome::Changed(_) => true,
            Outcome::Unchanged(_) => false,
        }
    }

    pub fn note(&self) -> (r: &'static str)
        ensures
            r == match *self {
                Outcome::Changed(s) => s,
                Outcome::Unchanged(s) => s,
            },
    {
        match self {
            Outcome::Changed(s) => s,
            Outcome::Unchanged(s) => s,
        }
    }
}

/// Why an edit was refused.
#[derive(Debug, Clone, Copy, PartialEq, Eq)]
pub enum SelectionError {
    /// The document has no `bar` field to place a widget in.
    NoBar,
    /// `bar` is not an object.
    BarNotObject,
    /// `bar.layout` is not an object.
    LayoutNotObject,
    /// `bar.layout.<section>` is not an array.
    SectionNotArray(Section),
    /// The bar is always on.
    BarAlwaysOn,
}

impl SelectionError {
    pub fn message(&self) -> (r: String)
        ensures
            r@ == selection_error_message(*self),
    {
        match self {
            SelectionError::NoBar => "shell.json has no bar object".to_owned(),
            SelectionError::BarNotObject => "bar must be an object".to_owned(),
            SelectionError::LayoutNotObject => "bar.layout must be an object".to_owned(),
            SelectionError::SectionNotArray(s) => {
                let mut v: Vec<char> = Vec::new();
                crate::text::extend_str(&mut v, "bar.layout.");
                crate::text::extend_str(&mut v, s.key());
                crate::text::extend_str(&mut v, " must be an array");
                crate::text::string_of(v.as_slice())
            },
            SelectionError::BarAlwaysOn => "the bar cannot be disabled".to_owned(),
        }
    }
}

pub open spec fn selection_error_message(e: SelectionError) -> Seq<char> {
    match e {
        SelectionError::NoBar => "shell.json has no bar object"@,
        SelectionError::BarNotObject => "bar must be an object"@,
        SelectionError::LayoutNotObject => "bar.layout must be an object"@,
        SelectionError::SectionNotArray(s) => "bar.layout."@ + section_key(s) + " must be an array"@,
        SelectionError::BarAlwaysOn => "the bar cannot be disabled"@,
    }
}

pub open spec fn outcome_of(changed: bool, unchanged_note: &'static str) -> Outcome {
    if changed {
        Outcome::Changed("enabled")
    } else {
        Outcome::Unchanged(unchanged_note)
    }
}

fn into_outcome(changed: bool, unchanged_note: &'static str) -> (r: Outcome)
    ensures
        r == outcome_of(changed, unchanged_note),
{
    if changed {
        Outcome::Changed("enabled")
    } else {
        Outcome::Unchanged(unchanged_note)
    }
}

// --- layout sections -------------------------------------------------------------

/// The array at `bar.layout.<key>`, when that path exists and holds one.
pub open spec fn section_arr(d: JsonV, key: Seq<char>) -> Option<Seq<JsonV>> {
    match layout_fields(d) {
        Some(lf) => match get(JsonV::Object(lf), key) {
            Some(v) => match v {
                JsonV::Array(a) => Some(a),
                _ => None,
            },
            None => None,
        },
        None => None,
    }
}

pub open spec fn section_has(d: JsonV, key: Seq<char>, id: Seq<char>) -> bool {
    match section_arr(d, key) {
        Some(a) => a.contains(JsonV::Str(id)),
        None => false,
    }
}

/// The first layout section (left, center, right) holding `id`.
pub open spec fn layout_section_of(d: JsonV, id: Seq<char>) -> Option<Section> {
    if section_has(d, "left"@, id) {
        Some(Section::Left)
    } else if section_has(d, "center"@, id) {
        Some(Section::Center)
    } else if section_has(d, "right"@, id) {
        Some(Section::Right)
    } else {
        None
    }
}

/// `d` with the array at `bar.layout.<key>` replaced.
pub open spec fn set_section(d: JsonV, key: Seq<char>, a: Seq<JsonV>) -> JsonV {
    let b = get(d, "bar"@)->0;
    let l = get(b, "layout"@)->0;
    set_at(d, "bar"@, set_at(b, "layout"@, set_at(l, key, JsonV::Array(a))))
}

/// `id` taken out of `bar.layout.<key>` (first occurrence), when that array exists.
pub open spec fn scrub_section(d: JsonV, key: Seq<char>, id: Seq<char>) -> JsonV {
    match section_arr(d, key) {
        Some(a) => set_section(d, key, remove_str(a, id)),
        None => d,
    }
}

/// `id` appended to `bar.layout.<section>`, creating `layout` and the
/// section when absent.
pub open spec fn place_widget(d: JsonV, sec: Section, id: Seq<char>) -> Result<JsonV, SelectionError> {
    let key = section_key(sec);
    match get(d, "bar"@) {
        None => Err(SelectionError::NoBar),
        Some(b) => if !(b is Object) {
            Err(SelectionError::BarNotObject)
        } else {
            let b1 = with_entry(b, "layout"@, JsonV::Object(Seq::empty()));
            let l = get(b1, "layout"@)->0;
            if !(l is Object) {
                Err(SelectionError::LayoutNotObject)
            } else {
                let l1 = with_entry(l, key, JsonV::Array(Seq::empty()));
                match get(l1, key)->0 {
                    JsonV::Array(a) => Ok(
                        set_at(
                            d,
                            "bar"@,
                            set_at(b1, "layout"@, set_at(l1, key, JsonV::Array(a.push(JsonV::Str(id))))),
                        ),
                    ),
                    _ => Err(SelectionError::SectionNotArray(sec)),
                }
            }
        },
    }
}

/// Which layout section holds `id`, if any.
fn find_in_layout(doc: &Json, id: &[char]) -> (r: Option<Section>)
    ensures
        r == layout_section_of(doc@, id@),
{
    let r = if section_holds(doc, Section::Left, id) {
        Some(Section::Left)
    } else if section_holds(doc, Section::Center, id) {
        Some(Section::Center)
    } else if section_holds(doc, Section::Right, id) {
        Some(Section::Right)
    } else {
        None
    };
    proof {
        reveal_strlit("left");
        reveal_strlit("center");
        reveal_strlit("right");
    }
    r
}

fn section_holds(doc: &Json, sec: Section, id: &[char]) -> (r: bool)
    ensures
        r == section_has(doc@, section_key(sec), id@),
{
    let key = chars_of(sec.key());
    let bar_key = chars_of("bar");
    let layout_key = chars_of("layout");
    match doc {
        Json::Object(fs) => {
            let bi = match find_key(fs, bar_key.as_slice()) {
                Some(bi) => bi,
                None => {
                    return false;
                },
            };
            proof {
                lemma_get_field(fs@, bi as int, "bar"@);
            }
            match &fs[bi].1 {
                Json::Object(bf) => {
                    let li = match find_key(bf, layout_key.as_slice()) {
                        Some(li) => li,
                        None => {
                            return false;
                        },
                    };
                    proof {
                        lemma_get_field(bf@, li as int, "layout"@);
                    }
                    match &bf[li].1 {
                        Json::Object(lf) => {
                            let si = match find_key(lf, key.as_slice()) {
                                Some(si) => si,
                                None => {
                                    return false;
                                },
                            };
                            proof {
                                lemma_get_field(lf@, si as int, key@);
                            }
                            match &lf[si].1 {
                                Json::Array(a) => contains_str_value(a, id),
                                _ => false,
                            }
                        },
                        _ => false,
                    }
                },
                _ => false,
            }
        },
        _ => false,
    }
}


/// Takes `id` out of `bar.layout.<sec>` when that array exists; true when
/// it was there.
fn scrub_layout(doc: &mut Json, sec: Section, id: &[char]) -> (r: bool)
    ensures
        final(doc)@ == scrub_section(old(doc)@, section_key(sec), id@),
        r == section_has(old(doc)@, section_key(sec), id@),
{
    let ghost d0 = doc@;
    let key = chars_of(sec.key());
    let bar_key = chars_of("bar");
    let layout_key = chars_of("layout");
    let mut owned = Json::Null;
    std::mem::swap(&mut owned, doc);
    match owned {
        Json::Object(mut fs) => {
            let bi = match find_key(&fs, bar_key.as_slice()) {
                Some(bi) => bi,
                None => {
                    *doc = Json::Object(fs);
                    return false;
                },
            };
            let ghost fs0 = fs@;
            proof {
                lemma_get_field(fs0, bi as int, "bar"@);
            }
            let mut slot: (String, Json) = (String::new(), Json::Null);
            fs.set_and_swap(bi, &mut slot);
            let (bk, bar) = slot;
            match bar {
                Json::Object(mut bf) => {
                    let ghost bf0 = bf@;
                    let li = match find_key(&bf, layout_key.as_slice()) {
                        Some(li) => li,
                        None => {
                            fs.set(bi, (bk, Json::Object(bf)));
                            assert(fs@ =~= fs0);
                            *doc = Json::Object(fs);
                            return false;
                        },
                    };
                    proof {
                        lemma_get_field(bf0, li as int, "layout"@);
                    }
                    let mut lslot: (String, Json) = (String::new(), Json::Null);
                    bf.set_and_swap(li, &mut lslot);
                    let (lk, lay) = lslot;
                    match lay {
                        Json::Object(mut lf) => {
                            let ghost lf0 = lf@;
                            let si = match find_key(&lf, key.as_slice()) {
                                Some(si) => si,
                                None => {
                                    bf.set(li, (lk, Json::Object(lf)));
                                    assert(bf@ =~= bf0);
                                    fs.set(bi, (bk, Json::Object(bf)));
                                    proof {
                                        lemma_view_obj(bf0);
                                        lemma_restore_field(fs0, bi as int, "bar"@, bk, Json::Object(bf));
                                        assert(fs@ =~= fs0.update(bi as int, (bk, Json::Object(bf))));
                                    }
                                    *doc = Json::Object(fs);
                                    return false;
                                },
                            };
                            proof {
                                lemma_get_field(lf0, si as int, key@);
                            }
                            let mut sslot: (String, Json) = (String::new(), Json::Null);
                            lf.set_and_swap(si, &mut sslot);
                            let (sk, sv) = sslot;
                            match sv {
                                Json::Array(mut a) => {
                                    let ghost a0 = view_arr(a@);
                                    let found = take_str(&mut a, id);
                                    let ghost a1 = view_arr(a@);
                                    lf.set(si, (sk, Json::Array(a)));
                                    assert(lf@ =~= lf0.update(si as int, (sk, Json::Array(a))));
                                    proof {
                                        lemma_set_field(lf0, si as int, key@, sk, Json::Array(a));
                                    }
                                    bf.set(li, (lk, Json::Object(lf)));
                                    assert(bf@ =~= bf0.update(li as int, (lk, Json::Object(lf))));
                                    proof {
                                        lemma_set_field(bf0, li as int, "layout"@, lk, Json::Object(lf));
                                    }
                                    fs.set(bi, (bk, Json::Object(bf)));
                                    assert(fs@ =~= fs0.update(bi as int, (bk, Json::Object(bf))));
                                    proof {
                                        lemma_set_field(fs0, bi as int, "bar"@, bk, Json::Object(bf));
                                    }
                                    *doc = Json::Object(fs);
                                    found
                                },
                                other => {
                                    lf.set(si, (sk, other));
                                    assert(lf@ =~= lf0);
                                    bf.set(li, (lk, Json::Object(lf)));
                                    proof {
                                        lemma_view_obj(lf0);
                                        lemma_restore_field(bf0, li as int, "layout"@, lk, Json::Object(lf));
                                        assert(bf@ =~= bf0.update(li as int, (lk, Json::Object(lf))));
                                    }
                                    fs.set(bi, (bk, Json::Object(bf)));
                                    proof {
                                        lemma_view_obj(bf0);
                                        lemma_restore_field(fs0, bi as int, "bar"@, bk, Json::Object(bf));
                                        assert(fs@ =~= fs0.update(bi as int, (bk, Json::Object(bf))));
                                    }
                                    *doc = Json::Object(fs);
                                    false
                                },
                            }
                        },
                        other => {
                            bf.set(li, (lk, other));
                            assert(bf@ =~= bf0);
                            fs.set(bi, (bk, Json::Object(bf)));
                            proof {
                                lemma_view_obj(bf0);
                                lemma_restore_field(fs0, bi as int, "bar"@, bk, Json::Object(bf));
                                assert(fs@ =~= fs0.update(bi as int, (bk, Json::Object(bf))));
                            }
                            *doc = Json::Object(fs);
                            false
                        },
                    }
                },
                other => {
                    fs.set(bi, (bk, other));
                    assert(fs@ =~= fs0);
                    *doc = Json::Object(fs);
                    false
                },
            }
        },
        other => {
            *doc = other;
            false
        },
    }
}

/// Appends `id` to `bar.layout.<sec>`, creating `layout` and the section
/// when absent; the document is left as it was on an error.
fn place_in_layout(doc: &mut Json, sec: Section, id: &[char]) -> (r: Result<(), SelectionError>)
    ensures
        match place_widget(old(doc)@, sec, id@) {
            Ok(d2) => r is Ok && final(doc)@ == d2,
            Err(e) => r == Err::<(), SelectionError>(e) && final(doc)@ == old(doc)@,
        },
{
    let ghost d0 = doc@;
    let ghost key = section_key(sec);
    let bar_key = chars_of("bar");
    let mut owned = Json::Null;
    std::mem::swap(&mut owned, doc);
    match owned {
        Json::Object(mut fs) => {
            let bi = match find_key(&fs, bar_key.as_slice()) {
                Some(bi) => bi,
                None => {
                    *doc = Json::Object(fs);
                    return Err(SelectionError::NoBar);
                },
            };
            let ghost fs0 = fs@;
            proof {
                lemma_get_field(fs0, bi as int, "bar"@);
            }
            let mut slot: (String, Json) = (String::new(), Json::Null);
            fs.set_and_swap(bi, &mut slot);
            let (bk, bar) = slot;
            match bar {
                Json::Object(mut bf) => {
                    let ghost bf0 = bf@;
                    proof {
                        lemma_view_obj(bf0);
                    }
                    let li = ensure_entry(&mut bf, "layout", Json::Object(Vec::new()));
                    let ghost bf1 = bf@;
                    proof {
                        lemma_get_field(bf1, li as int, "layout"@);
                        assert(view_obj(Seq::<(String, Json)>::empty()) =~= Seq::<(Seq<char>, JsonV)>::empty());
                    }
                    let mut lslot: (String, Json) = (String::new(), Json::Null);
                    bf.set_and_swap(li, &mut lslot);
                    let (lk, lay) = lslot;
                    match lay {
                        Json::Object(mut lf) => {
                            let ghost lf0 = lf@;
                            proof {
                                lemma_view_obj(lf0);
                            }
                            let si = ensure_entry(&mut lf, sec.key(), Json::Array(Vec::new()));
                            let ghost lf1 = lf@;
                            proof {
                                lemma_get_field(lf1, si as int, key);
                                assert(view_arr(Seq::<Json>::empty()) =~= Seq::<JsonV>::empty());
                            }
                            let mut sslot: (String, Json) = (String::new(), Json::Null);
                            lf.set_and_swap(si, &mut sslot);
                            let (sk, sv) = sslot;
                            match sv {
                                Json::Array(mut a) => {
                                    let ghost a0 = a@;
                                    a.push(str_value(id));
                                    proof {
                                        lemma_view_arr(a@);
                                        lemma_view_arr(a0);
                                        assert(view_arr(a@) =~= view_arr(a0).push(JsonV::Str(id@)));
                                    }
                                    lf.set(si, (sk, Json::Array(a)));
                                    assert(lf@ =~= lf1.update(si as int, (sk, Json::Array(a))));
                                    proof {
                                        lemma_set_field(lf1, si as int, key, sk, Json::Array(a));
                                    }
                                    bf.set(li, (lk, Json::Object(lf)));
                                    assert(bf@ =~= bf1.update(li as int, (lk, Json::Object(lf))));
                                    proof {
                                        lemma_set_field(bf1, li as int, "layout"@, lk, Json::Object(lf));
                                    }
                                    fs.set(bi, (bk, Json::Object(bf)));
                                    assert(fs@ =~= fs0.update(bi as int, (bk, Json::Object(bf))));
                                    proof {
                                        lemma_set_field(fs0, bi as int, "bar"@, bk, Json::Object(bf));
                                    }
                                    *doc = Json::Object(fs);
                                    Ok(())
                                },
                                other => {
                                    proof {
                                        if !has_key(view_obj(lf0), key) {
                                            lemma_with_entry_get(JsonV::Object(view_obj(lf0)), key, JsonV::Array(Seq::empty()), key);
                                        }
                                        if !has_key(view_obj(bf0), "layout"@) {
                                            lemma_with_entry_get(JsonV::Object(view_obj(bf0)), "layout"@, JsonV::Object(Seq::empty()), "layout"@);
                                        }
                                    }
                                    lf.set(si, (sk, other));
                                    assert(lf@ =~= lf1);
                                    bf.set(li, (lk, Json::Object(lf)));
                                    proof {
                                        lemma_view_obj(lf1);
                                        lemma_view_obj(lf0);
                                        lemma_restore_field(bf1, li as int, "layout"@, lk, Json::Object(lf));
                                        assert(bf@ =~= bf1.update(li as int, (lk, Json::Object(lf))));
                                    }
                                    fs.set(bi, (bk, Json::Object(bf)));
                                    proof {
                                        lemma_view_obj(bf1);
                                        lemma_restore_field(fs0, bi as int, "bar"@, bk, Json::Object(bf));
                                        assert(fs@ =~= fs0.update(bi as int, (bk, Json::Object(bf))));
                                    }
                                    *doc = Json::Object(fs);
                                    Err(SelectionError::SectionNotArray(sec))
                                },
                            }
                        },
                        other => {
                            proof {
                                if !has_key(view_obj(bf0), "layout"@) {
                                    lemma_with_entry_get(JsonV::Object(view_obj(bf0)), "layout"@, JsonV::Object(Seq::empty()), "layout"@);
                                }
                            }
                            bf.set(li, (lk, other));
                            assert(bf@ =~= bf1);
                            fs.set(bi, (bk, Json::Object(bf)));
                            proof {
                                lemma_view_obj(bf1);
                                lemma_restore_field(fs0, bi as int, "bar"@, bk, Json::Object(bf));
                                assert(fs@ =~= fs0.update(bi as int, (bk, Json::Object(bf))));
                            }
                            *doc = Json::Object(fs);
                            Err(SelectionError::LayoutNotObject)
                        },
                    }
                },
                other => {
                    fs.set(bi, (bk, other));
                    assert(fs@ =~= fs0);
                    *doc = Json::Object(fs);
                    Err(SelectionError::BarNotObject)
                },
            }
        },
        other => {
            *doc = other;
            Err(SelectionError::NoBar)
        },
    }
}

// --- enable / disable --------------------------------------------------------------

/// The fields that `enable` edits in place are arrays (or absent): the
/// documents the edit can work on.
pub open spec fn enable_ready(d: JsonV, id: Seq<char>, kind: PluginKind) -> bool {
    id != BAR_ID@ ==> {
        &&& first_party(id) ==> arr_slot_ok(d, "disabledPlugins"@)
        &&& (kind == PluginKind::Regular && !first_party(id)) ==> arr_slot_ok(d, "plugins"@)
    }
}

/// The document after `enable`, and its result.
pub open spec fn enable_spec(d: JsonV, id: Seq<char>, kind: PluginKind, sec: Section) -> (
    JsonV,
    Result<Outcome, SelectionError>,
) {
    if id == BAR_ID@ {
        (d, Ok(Outcome::Unchanged("the bar is always enabled")))
    } else {
        let fp = first_party(id);
        let dis = arr_at(d, "disabledPlugins"@);
        let d1 = if fp {
            put_arr(d, "disabledPlugins"@, remove_str(dis, id))
        } else {
            d
        };
        let changed = fp && dis.contains(JsonV::Str(id));
        if kind == PluginKind::BarWidget {
            if layout_section_of(d1, id) is Some {
                (d1, Ok(outcome_of(changed, "already placed in the bar layout")))
            } else {
                match place_widget(d1, sec, id) {
                    Ok(d2) => (d2, Ok(Outcome::Changed("added to the bar layout"))),
                    Err(e) => (d1, Err(e)),
                }
            }
        } else if !fp && !arr_at(d1, "plugins"@).contains(JsonV::Str(id)) {
            (
                put_arr(d1, "plugins"@, arr_at(d1, "plugins"@).push(JsonV::Str(id))),
                Ok(Outcome::Changed("added to plugins")),
            )
        } else {
            (d1, Ok(outcome_of(changed, "already enabled")))
        }
    }
}

/// The fields that `disable` edits in place are arrays (or absent): the
/// documents the edit can work on.
pub open spec fn disable_ready(d: JsonV, id: Seq<char>) -> bool {
    id != BAR_ID@ ==> {
        &&& arr_slot_ok(d, "plugins"@)
        &&& first_party(id) ==> arr_slot_ok(d, "disabledPlugins"@)
    }
}

/// `id` scrubbed from the three layout sections, in order.
pub open spec fn scrub_layout_spec(d: JsonV, id: Seq<char>) -> JsonV {
    scrub_section(scrub_section(scrub_section(d, "left"@, id), "center"@, id), "right"@, id)
}

/// Was `id` found in a layout section while scrubbing?
pub open spec fn scrub_hit(d: JsonV, id: Seq<char>) -> bool {
    let d1 = scrub_section(d, "left"@, id);
    let d2 = scrub_section(d1, "center"@, id);
    section_has(d, "left"@, id) || section_has(d1, "center"@, id) || section_has(d2, "right"@, id)
}

/// The document after `disable`, and its result.
pub open spec fn disable_spec(d: JsonV, id: Seq<char>) -> (JsonV, Result<Outcome, SelectionError>) {
    if id == BAR_ID@ {
        (d, Err(SelectionError::BarAlwaysOn))
    } else {
        let d3 = scrub_layout_spec(d, id);
        let p = arr_at(d3, "plugins"@);
        let d4 = put_arr(d3, "plugins"@, remove_str(p, id));
        let changed = scrub_hit(d, id) || p.contains(JsonV::Str(id));
        let dis = arr_at(d4, "disabledPlugins"@);
        if first_party(id) && !dis.contains(JsonV::Str(id)) {
            (
                put_arr(d4, "disabledPlugins"@, sorted_insert(dis, id)),
                Ok(
                    Outcome::Changed(
                        if changed {
                            "removed from active spots and disabled"
                        } else {
                            "listed in disabledPlugins"
                        },
                    ),
                ),
            )
        } else {
            (d4, Ok(outcome_of(changed, "was not enabled")))
        }
    }
}

pub(crate) proof fn lemma_key_names()
    ensures
        "bar"@ != "plugins"@,
        "bar"@ != "disabledPlugins"@,
        "plugins"@ != "disabledPlugins"@,
{
    reveal_strlit("bar");
    reveal_strlit("plugins");
    reveal_strlit("disabledPlugins");
    assert("bar"@.len() != "plugins"@.len());
    assert("bar"@.len() != "disabledPlugins"@.len());
    assert("plugins"@.len() != "disabledPlugins"@.len());
}

/// Scrubbing touches `bar` alone.
pub(crate) proof fn lemma_scrub_other(d: JsonV, key: Seq<char>, id: Seq<char>, k2: Seq<char>)
    requires
        k2 != "bar"@,
    ensures
        get(scrub_section(d, key, id), k2) == get(d, k2),
        d is Object ==> scrub_section(d, key, id) is Object,
{
    match section_arr(d, key) {
        Some(a) => {
            let b = get(d, "bar"@)->0;
            let l = get(b, "layout"@)->0;
            let nb = set_at(b, "layout"@, set_at(l, key, JsonV::Array(remove_str(a, id))));
            crate::json::lemma_set_at_get(d, "bar"@, nb, k2);
            crate::json::lemma_set_at_get_same(d, "bar"@, nb);
        },
        None => {},
    }
}

pub(crate) proof fn lemma_scrub_all_other(d: JsonV, id: Seq<char>, k2: Seq<char>)
    requires
        k2 != "bar"@,
    ensures
        get(scrub_layout_spec(d, id), k2) == get(d, k2),
        d is Object ==> scrub_layout_spec(d, id) is Object,
{
    let d1 = scrub_section(d, "left"@, id);
    let d2 = scrub_section(d1, "center"@, id);
    lemma_scrub_other(d, "left"@, id, k2);
    lemma_scrub_other(d1, "center"@, id, k2);
    lemma_scrub_other(d2, "right"@, id, k2);
}

/// A string found in an array field means the field exists and is an array.
proof fn lemma_arr_nonempty(d: JsonV, k: Seq<char>, id: Seq<char>)
    requires
        arr_at(d, k).contains(JsonV::Str(id)),
    ensures
        get(d, k) matches Some(v) && v is Array,
{
}

/// Enable `id`: delist it from `disabledPlugins[]` (first-party) and make it
/// active (a layout slot for widgets, `plugins[]` for third-party ones).
pub fn enable(doc: &mut Json, id: &str, kind: PluginKind, section: Section) -> (r: Result<Outcome, SelectionError>)
    requires
        enable_ready(old(doc)@, id@, kind),
    ensures
        (final(doc)@, r) == enable_spec(old(doc)@, id@, kind, section),
{
    let ghost d0 = doc@;
    let idc = chars_of(id);
    if eq_str(idc.as_slice(), BAR_ID) {
        return Ok(Outcome::Unchanged("the bar is always enabled"));
    }
    let fp = is_first_party(id);
    let mut changed = false;
    if fp {
        changed = arr_edit(doc, "disabledPlugins", ArrEdit::Remove, idc.as_slice());
    }
    let ghost d1 = doc@;
    if kind == PluginKind::BarWidget {
        if find_in_layout(doc, idc.as_slice()).is_some() {
            return Ok(into_outcome(changed, "already placed in the bar layout"));
        }
        return match place_in_layout(doc, section, idc.as_slice()) {
            Ok(()) => Ok(Outcome::Changed("added to the bar layout")),
            Err(e) => Err(e),
        };
    }
    if !fp {
        let present = arr_edit(doc, "plugins", ArrEdit::Keep, idc.as_slice());
        proof {
            crate::json::lemma_put_arr(d1, "plugins"@, arr_at(d1, "plugins"@), "plugins"@);
        }
        if !present {
            let ghost d1k = doc@;
            arr_edit(doc, "plugins", ArrEdit::Push, idc.as_slice());
            proof {
                crate::json::lemma_put_arr_twice(
                    d1,
                    "plugins"@,
                    arr_at(d1, "plugins"@),
                    arr_at(d1, "plugins"@).push(JsonV::Str(id@)),
                );
            }
            return Ok(Outcome::Changed("added to plugins"));
        }
        proof {
            lemma_arr_nonempty(d1, "plugins"@, id@);
            crate::json::lemma_put_arr_same(d1, "plugins"@);
        }
    }
    Ok(into_outcome(changed, "already enabled"))
}

/// Disable `id`: scrub it from every active location and, when first-party,
/// insert it into `disabledPlugins[]` at its sorted position.
pub fn disable(doc: &mut Json, id: &str) -> (r: Result<Outcome, SelectionError>)
    requires
        disable_ready(old(doc)@, id@),
    ensures
        (final(doc)@, r) == disable_spec(old(doc)@, id@),
{
    let ghost d0 = doc@;
    let idc = chars_of(id);
    if eq_str(idc.as_slice(), BAR_ID) {
        return Err(SelectionError::BarAlwaysOn);
    }
    let mut changed = false;
    if scrub_layout(doc, Section::Left, idc.as_slice()) {
        changed = true;
    }
    if scrub_layout(doc, Section::Center, idc.as_slice()) {
        changed = true;
    }
    if scrub_layout(doc, Section::Right, idc.as_slice()) {
        changed = true;
    }
    let ghost d3 = doc@;
    proof {
        reveal_strlit("left");
        reveal_strlit("center");
        reveal_strlit("right");
        lemma_key_names();
        lemma_scrub_all_other(d0, id@, "plugins"@);
        lemma_scrub_all_other(d0, id@, "disabledPlugins"@);
        assert(d3 == scrub_layout_spec(d0, id@));
    }
    if arr_edit(doc, "plugins", ArrEdit::Remove, idc.as_slice()) {
        changed = true;
    }
    let ghost d4 = doc@;
    proof {
        crate::json::lemma_put_arr(d3, "plugins"@, remove_str(arr_at(d3, "plugins"@), id@), "disabledPlugins"@);
    }
    if is_first_party(id) {
        let present = arr_edit(doc, "disabledPlugins", ArrEdit::Keep, idc.as_slice());
        proof {
            crate::json::lemma_put_arr(d4, "disabledPlugins"@, arr_at(d4, "disabledPlugins"@), "disabledPlugins"@);
        }
        if !present {
            arr_edit(doc, "disabledPlugins", ArrEdit::SortedInsert, idc.as_slice());
            proof {
                crate::json::lemma_put_arr_twice(
                    d4,
                    "disabledPlugins"@,
                    arr_at(d4, "disabledPlugins"@),
                    sorted_insert(arr_at(d4, "disabledPlugins"@), id@),
                );
            }
            return Ok(Outcome::Changed(
                if changed {
                    "removed from active spots and disabled"
                } else {
                    "listed in disabledPlugins"
                },
            ));
        }
        proof {
            lemma_arr_nonempty(d4, "disabledPlugins"@, id@);
            crate::json::lemma_put_arr_same(d4, "disabledPlugins"@);
        }
    }
    Ok(into_outcome(changed, "was not enabled"))
}
} // verus!
