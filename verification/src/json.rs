use vstd::prelude::*;

verus! {

/// A JSON document, fields in their written order.
#[derive(Debug)]
pub enum Json {
    Null,
    Bool(bool),
    Number(String),
    Str(String),
    Array(Vec<Json>),
    Object(Vec<(String, Json)>),
}

pub enum JsonV {
    Null,
    Bool(bool),
    Number(Seq<char>),
    Str(Seq<char>),
    Array(Seq<JsonV>),
    Object(Seq<(Seq<char>, JsonV)>),
}

pub open spec fn view_arr(s: Seq<Json>) -> Seq<JsonV>
    decreases s, 0nat,
{
    Seq::new(s.len(), |i: int| if 0 <= i < s.len() { json_view(s[i]) } else { JsonV::Null })
}

pub open spec fn view_obj(s: Seq<(String, Json)>) -> Seq<(Seq<char>, JsonV)>
    decreases s, 0nat,
{
    Seq::new(s.len(), |i: int| if 0 <= i < s.len() { (s[i].0@, json_view(s[i].1)) } else { (Seq::empty(), JsonV::Null) })
}

pub open spec fn json_view(j: Json) -> JsonV
    decreases j, 1nat,
{
    match j {
        Json::Null => JsonV::Null,
        Json::Bool(b) => JsonV::Bool(b),
        Json::Number(n) => JsonV::Number(n@),
        Json::Str(s) => JsonV::Str(s@),
        Json::Array(v) => JsonV::Array(view_arr(v@)),
        Json::Object(v) => JsonV::Object(view_obj(v@)),
    }
}

}

verus! {

impl View for Json {
    type V = JsonV;

    open spec fn view(&self) -> JsonV {
        json_view(*self)
    }
}

pub proof fn lemma_view_arr(s: Seq<Json>)
    ensures
        view_arr(s).len() == s.len(),
        forall|i: int| 0 <= i < s.len() ==> #[trigger] view_arr(s)[i] == json_view(s[i]),
{
}

pub proof fn lemma_view_obj(s: Seq<(String, Json)>)
    ensures
        view_obj(s).len() == s.len(),
        forall|i: int|
            0 <= i < s.len() ==> #[trigger] view_obj(s)[i] == (s[i].0@, json_view(s[i].1)),
{
}

/// Index of the first field named `k`.
pub open spec fn is_first_key(fs: Seq<(Seq<char>, JsonV)>, k: Seq<char>, i: int) -> bool {
    0 <= i < fs.len() && fs[i].0 == k && forall|j: int| 0 <= j < i ==> fs[j].0 != k
}

pub open spec fn has_key(fs: Seq<(Seq<char>, JsonV)>, k: Seq<char>) -> bool {
    exists|i: int| 0 <= i < fs.len() && fs[i].0 == k
}

pub open spec fn key_index(fs: Seq<(Seq<char>, JsonV)>, k: Seq<char>) -> Option<int> {
    if has_key(fs, k) {
        Some(choose|i: int| is_first_key(fs, k, i))
    } else {
        None
    }
}

pub proof fn lemma_key_index(fs: Seq<(Seq<char>, JsonV)>, k: Seq<char>, i: int)
    requires
        is_first_key(fs, k, i),
    ensures
        key_index(fs, k) == Some(i),
{
    let c = choose|i: int| is_first_key(fs, k, i);
    assert(is_first_key(fs, k, c));
    if c < i {
        assert(fs[c].0 != k);
    }
    if i < c {
        assert(fs[i].0 != k);
    }
}

pub proof fn lemma_key_index_some(fs: Seq<(Seq<char>, JsonV)>, k: Seq<char>)
    requires
        has_key(fs, k),
    ensures
        key_index(fs, k) is Some,
        is_first_key(fs, k, key_index(fs, k)->0),
    decreases fs.len(),
{
    let w = choose|i: int| 0 <= i < fs.len() && fs[i].0 == k;
    // the least such index exists
    let mut m = w;
    lemma_least_key(fs, k, w);
}

proof fn lemma_least_key(fs: Seq<(Seq<char>, JsonV)>, k: Seq<char>, w: int)
    requires
        0 <= w < fs.len(),
        fs[w].0 == k,
    ensures
        exists|i: int| is_first_key(fs, k, i),
    decreases w,
{
    if exists|j: int| 0 <= j < w && fs[j].0 == k {
        let j = choose|j: int| 0 <= j < w && fs[j].0 == k;
        lemma_least_key(fs, k, j);
    } else {
        assert(is_first_key(fs, k, w));
    }
}

/// `Value::get(k)`: the first field named `k` of an object, else nothing.
pub open spec fn get(v: JsonV, k: Seq<char>) -> Option<JsonV> {
    match v {
        JsonV::Object(fs) => match key_index(fs, k) {
            Some(i) => Some(fs[i].1),
            None => None,
        },
        _ => None,
    }
}

pub open spec fn str_of(v: JsonV) -> Option<Seq<char>> {
    match v {
        JsonV::Str(s) => Some(s),
        _ => None,
    }
}

/// Index of the first field of `fields` named `k`.
pub fn find_key(fields: &Vec<(String, Json)>, k: &[char]) -> (r: Option<usize>)
    ensures
        match r {
            Some(i) => i < fields.len() && key_index(view_obj(fields@), k@) == Some(i as int),
            None => key_index(view_obj(fields@), k@) is None,
        },
{
    let ghost fs = view_obj(fields@);
    proof {
        lemma_view_obj(fields@);
    }
    let mut i: usize = 0;
    while i < fields.len()
        invariant
            i <= fields.len(),
            fs == view_obj(fields@),
            fs.len() == fields.len(),
            forall|j: int| 0 <= j < i ==> fs[j].0 != k@,
        decreases fields.len() - i,
    {
        let key = crate::text::chars_of(fields[i].0.as_str());
        assert(fs[i as int].0 == fields@[i as int].0@);
        if crate::text::seq_eq(key.as_slice(), k) {
            proof {
                assert(is_first_key(fs, k@, i as int));
                lemma_key_index(fs, k@, i as int);
            }
            return Some(i);
        }
        i += 1;
    }
    assert(!has_key(fs, k@));
    None
}

/// `Value::get(k)` on an owned tree.
pub fn get_field<'a>(j: &'a Json, k: &[char]) -> (r: Option<&'a Json>)
    ensures
        match r {
            Some(x) => get(j@, k@) == Some(x@),
            None => get(j@, k@) is None,
        },
{
    match j {
        Json::Object(fields) => {
            proof {
                lemma_view_obj(fields@);
            }
            match find_key(fields, k) {
                Some(i) => Some(&fields[i].1),
                None => None,
            }
        },
        _ => None,
    }
}

/// The characters of a string value.
pub fn as_str_chars(j: &Json) -> (r: Option<Vec<char>>)
    ensures
        match r {
            Some(v) => str_of(j@) == Some(v@),
            None => str_of(j@) is None,
        },
{
    match j {
        Json::Str(s) => Some(crate::text::chars_of(s.as_str())),
        _ => None,
    }
}

/// Is `j` the string `s`? (`v.as_str() == Some(s)`)
pub fn is_str(j: &Json, s: &[char]) -> (r: bool)
    ensures
        r == (j@ == JsonV::Str(s@)),
{
    match j {
        Json::Str(t) => {
            let c = crate::text::chars_of(t.as_str());
            crate::text::seq_eq(c.as_slice(), s)
        },
        _ => false,
    }
}

pub fn str_value(s: &[char]) -> (r: Json)
    ensures
        r@ == JsonV::Str(s@),
{
    Json::Str(crate::text::string_of(s))
}

/// Structural equality (what comparing serialized forms decides).
#[verifier::loop_isolation(false)]
pub fn json_eq(a: &Json, b: &Json) -> (r: bool)
    ensures
        r == (a@ == b@),
    decreases a,
{
    match (a, b) {
        (Json::Null, Json::Null) => true,
        (Json::Bool(x), Json::Bool(y)) => *x == *y,
        (Json::Number(x), Json::Number(y)) => x.eq(y),
        (Json::Str(x), Json::Str(y)) => x.eq(y),
        (Json::Array(x), Json::Array(y)) => {
            proof {
                lemma_view_arr(x@);
                lemma_view_arr(y@);
            }
            if x.len() != y.len() {
                return false;
            }
            let mut i: usize = 0;
            while i < x.len()
                invariant
                    x.len() == y.len(),
                    i <= x.len(),
                    forall|j: int| 0 <= j < i ==> json_view(x@[j]) == json_view(y@[j]),
                decreases x.len() - i,
            {
                assert(decreases_to!(a => x@[i as int]));
                if !json_eq(&x[i], &y[i]) {
                    assert(view_arr(x@)[i as int] != view_arr(y@)[i as int]);
                    return false;
                }
                i += 1;
            }
            assert(view_arr(x@) =~= view_arr(y@));
            true
        },
        (Json::Object(x), Json::Object(y)) => {
            proof {
                lemma_view_obj(x@);
                lemma_view_obj(y@);
            }
            if x.len() != y.len() {
                return false;
            }
            let mut i: usize = 0;
            while i < x.len()
                invariant
                    x.len() == y.len(),
                    i <= x.len(),
                    forall|j: int|
                        0 <= j < i ==> x@[j].0@ == y@[j].0@ && json_view(x@[j].1) == json_view(
                            y@[j].1,
                        ),
                decreases x.len() - i,
            {
                if !x[i].0.eq(&y[i].0) {
                    assert(view_obj(x@)[i as int] != view_obj(y@)[i as int]);
                    return false;
                }
                assert(decreases_to!(a => x@[i as int].1));
                if !json_eq(&x[i].1, &y[i].1) {
                    assert(view_obj(x@)[i as int] != view_obj(y@)[i as int]);
                    return false;
                }
                i += 1;
            }
            assert(view_obj(x@) =~= view_obj(y@));
            true
        },
        _ => false,
    }
}

} // verus!

verus! {

// --- arrays of values ------------------------------------------------------------

pub open spec fn is_first_str(s: Seq<JsonV>, id: Seq<char>, i: int) -> bool {
    0 <= i < s.len() && s[i] == JsonV::Str(id) && forall|j: int| 0 <= j < i ==> s[j] != JsonV::Str(id)
}

/// Index of the first string value equal to `id`.
pub open spec fn str_index(s: Seq<JsonV>, id: Seq<char>) -> Option<int> {
    if s.contains(JsonV::Str(id)) {
        Some(choose|i: int| is_first_str(s, id, i))
    } else {
        None
    }
}

pub proof fn lemma_str_index(s: Seq<JsonV>, id: Seq<char>, i: int)
    requires
        is_first_str(s, id, i),
    ensures
        str_index(s, id) == Some(i),
{
    let c = choose|i: int| is_first_str(s, id, i);
    assert(is_first_str(s, id, c));
    if c < i {
        assert(s[c] != JsonV::Str(id));
    }
    if i < c {
        assert(s[i] != JsonV::Str(id));
    }
}

/// `arr` without its first occurrence of the string `id` (`position` + `remove`).
pub open spec fn remove_str(s: Seq<JsonV>, id: Seq<char>) -> Seq<JsonV> {
    match str_index(s, id) {
        Some(i) => s.remove(i),
        None => s,
    }
}

/// Removes the first string value equal to `id`; true when one was found.
pub fn take_str(arr: &mut Vec<Json>, id: &[char]) -> (r: bool)
    ensures
        r == view_arr(old(arr)@).contains(JsonV::Str(id@)),
        view_arr(final(arr)@) == remove_str(view_arr(old(arr)@), id@),
{
    let ghost s = view_arr(arr@);
    proof {
        lemma_view_arr(arr@);
    }
    let mut i: usize = 0;
    while i < arr.len()
        invariant
            i <= arr.len(),
            s == view_arr(arr@),
            s == view_arr(old(arr)@),
            s.len() == arr.len(),
            forall|j: int| 0 <= j < i ==> s[j] != JsonV::Str(id@),
        decreases arr.len() - i,
    {
        if is_str(&arr[i], id) {
            proof {
                assert(s[i as int] == JsonV::Str(id@));
                assert(is_first_str(s, id@, i as int));
                lemma_str_index(s, id@, i as int);
            }
            let ghost before = arr@;
            arr.remove(i);
            proof {
                lemma_view_arr(arr@);
                assert(view_arr(arr@) =~= s.remove(i as int));
            }
            return true;
        }
        i += 1;
    }
    assert(!s.contains(JsonV::Str(id@)));
    false
}

/// Does the array hold the string `id`?
pub fn contains_str_value(arr: &Vec<Json>, id: &[char]) -> (r: bool)
    ensures
        r == view_arr(arr@).contains(JsonV::Str(id@)),
{
    let ghost s = view_arr(arr@);
    proof {
        lemma_view_arr(arr@);
    }
    let mut i: usize = 0;
    while i < arr.len()
        invariant
            i <= arr.len(),
            s == view_arr(arr@),
            s.len() == arr.len(),
            forall|j: int| 0 <= j < i ==> s[j] != JsonV::Str(id@),
        decreases arr.len() - i,
    {
        if is_str(&arr[i], id) {
            assert(s[i as int] == JsonV::Str(id@));
            return true;
        }
        i += 1;
    }
    false
}

/// A string value ordered before `id`.
pub open spec fn str_below(v: JsonV, id: Seq<char>) -> bool {
    match v {
        JsonV::Str(s) => crate::text::lex_lt(s, id),
        _ => false,
    }
}

/// Where a sorted insert of `id` goes: the first position whose value is not
/// a string ordered before `id` (`partition_point` on a partitioned array).
pub open spec fn sorted_pos(s: Seq<JsonV>, id: Seq<char>, p: int) -> bool {
    0 <= p <= s.len() && (forall|j: int| 0 <= j < p ==> str_below(s[j], id)) && (p < s.len()
        ==> !str_below(s[p], id))
}

/// Sorted insert of the string `id`, skipped when it already sits there.
pub open spec fn insert_sorted_spec(s: Seq<JsonV>, id: Seq<char>, p: int) -> Seq<JsonV> {
    if p < s.len() && s[p] == JsonV::Str(id) {
        s
    } else {
        s.insert(p, JsonV::Str(id))
    }
}

pub proof fn lemma_sorted_pos_unique(s: Seq<JsonV>, id: Seq<char>, p: int, q: int)
    requires
        sorted_pos(s, id, p),
        sorted_pos(s, id, q),
    ensures
        p == q,
{
    if p < q {
        assert(str_below(s[p], id));
    }
    if q < p {
        assert(str_below(s[q], id));
    }
}

pub fn insert_sorted_str(arr: &mut Vec<Json>, id: &[char])
    ensures
        exists|p: int|
            sorted_pos(view_arr(old(arr)@), id@, p) && view_arr(final(arr)@) == insert_sorted_spec(
                view_arr(old(arr)@),
                id@,
                p,
            ),
{
    let ghost s = view_arr(arr@);
    proof {
        lemma_view_arr(arr@);
    }
    let mut p: usize = 0;
    loop
        invariant
            p <= arr.len(),
            s == view_arr(arr@),
            s.len() == arr.len(),
            forall|j: int| 0 <= j < p ==> str_below(s[j], id@),
        ensures
            p <= arr.len(),
            s == view_arr(arr@),
            forall|j: int| 0 <= j < p ==> str_below(s[j], id@),
            p < arr.len() ==> !str_below(s[p as int], id@),
        decreases arr.len() - p,
    {
        if p == arr.len() {
            break;
        }
        let below = match &arr[p] {
            Json::Str(t) => {
                let c = crate::text::chars_of(t.as_str());
                crate::text::lex_lt_exec(c.as_slice(), id)
            },
            _ => false,
        };
        if !below {
            break;
        }
        p += 1;
    }
    assert(sorted_pos(s, id@, p as int));
    if p < arr.len() && is_str(&arr[p], id) {
        return;
    }
    arr.insert(p, str_value(id));
    proof {
        lemma_view_arr(arr@);
        assert(view_arr(arr@) =~= s.insert(p as int, JsonV::Str(id@)));
    }
}

// --- object fields ---------------------------------------------------------------

/// `map.entry(k).or_insert(dflt)` on an object: the key appended when absent.
pub open spec fn with_entry(v: JsonV, k: Seq<char>, dflt: JsonV) -> JsonV {
    match v {
        JsonV::Object(fs) => if has_key(fs, k) {
            v
        } else {
            JsonV::Object(fs.push((k, dflt)))
        },
        _ => v,
    }
}

/// Index of field `k`, appending `(k, dflt)` first when absent.
pub fn ensure_entry(fs: &mut Vec<(String, Json)>, k: &str, dflt: Json) -> (r: usize)
    ensures
        JsonV::Object(view_obj(final(fs)@)) == with_entry(JsonV::Object(view_obj(old(fs)@)), k@, dflt@),
        r < final(fs).len(),
        key_index(view_obj(final(fs)@), k@) == Some(r as int),
{
    let kc = crate::text::chars_of(k);
    match find_key(fs, kc.as_slice()) {
        Some(i) => {
            proof {
                assert(has_key(view_obj(fs@), k@)) by {
                    lemma_key_index_some_inv(view_obj(fs@), k@);
                }
            }
            i
        },
        None => {
            let ghost before = fs@;
            proof {
                lemma_view_obj(fs@);
                assert(!has_key(view_obj(fs@), k@));
            }
            fs.push((k.to_owned(), dflt));
            proof {
                lemma_view_obj(fs@);
                let n = view_obj(fs@);
                assert(n =~= view_obj(before).push((k@, dflt@)));
                assert(is_first_key(n, k@, (n.len() - 1) as int));
                lemma_key_index(n, k@, (n.len() - 1) as int);
            }
            fs.len() - 1
        },
    }
}

pub proof fn lemma_key_index_some_inv(fs: Seq<(Seq<char>, JsonV)>, k: Seq<char>)
    requires
        key_index(fs, k) is Some,
    ensures
        has_key(fs, k),
{
}

// --- replacing fields -----------------------------------------------------------

/// `v` with the value of its first field named `k` replaced (objects only).
pub open spec fn set_at(v: JsonV, k: Seq<char>, nv: JsonV) -> JsonV {
    match v {
        JsonV::Object(fs) => match key_index(fs, k) {
            Some(i) => JsonV::Object(fs.update(i, (fs[i].0, nv))),
            None => v,
        },
        _ => v,
    }
}

pub proof fn lemma_set_at_get(v: JsonV, k: Seq<char>, nv: JsonV, k2: Seq<char>)
    requires
        k != k2,
    ensures
        get(set_at(v, k, nv), k2) == get(v, k2),
{
    match v {
        JsonV::Object(fs) => {
            match key_index(fs, k) {
                Some(i) => {
                    lemma_key_index_some(fs, k);
                    let fs2 = fs.update(i, (fs[i].0, nv));
                    assert forall|j: int| 0 <= j < fs.len() implies fs2[j].0 == fs[j].0 by {}
                    if has_key(fs, k2) {
                        lemma_key_index_some(fs, k2);
                        let m = key_index(fs, k2)->0;
                        assert(is_first_key(fs2, k2, m));
                        lemma_key_index(fs2, k2, m);
                        lemma_key_index_some(fs, k);
                        assert(m != i);
                    } else {
                        assert(!has_key(fs2, k2)) by {
                            if has_key(fs2, k2) {
                                let j = choose|j: int| 0 <= j < fs2.len() && fs2[j].0 == k2;
                                assert(fs[j].0 == k2);
                            }
                        }
                    }
                },
                None => {},
            }
        },
        _ => {},
    }
}


// --- sorted insertion as a function ----------------------------------------------

/// The sorted insertion of `id` (the partition point always exists and is unique).
pub open spec fn sorted_insert(s: Seq<JsonV>, id: Seq<char>) -> Seq<JsonV> {
    insert_sorted_spec(s, id, choose|p: int| sorted_pos(s, id, p))
}

pub proof fn lemma_sorted_insert(s: Seq<JsonV>, id: Seq<char>, p: int)
    requires
        sorted_pos(s, id, p),
    ensures
        sorted_insert(s, id) == insert_sorted_spec(s, id, p),
{
    let q = choose|p: int| sorted_pos(s, id, p);
    assert(sorted_pos(s, id, q));
    lemma_sorted_pos_unique(s, id, p, q);
}

// --- array-valued fields ---------------------------------------------------------

/// The array stored under `k`, or nothing when the field is absent.
pub open spec fn arr_at(d: JsonV, k: Seq<char>) -> Seq<JsonV> {
    match get(d, k) {
        Some(v) => match v {
            JsonV::Array(a) => a,
            _ => Seq::empty(),
        },
        None => Seq::empty(),
    }
}

/// `d` is an object whose field `k` is absent or an array.
pub open spec fn arr_slot_ok(d: JsonV, k: Seq<char>) -> bool {
    &&& d is Object
    &&& match get(d, k) {
        Some(v) => v is Array,
        None => true,
    }
}

/// Checks `arr_slot_ok`: an object whose field `k` is absent or an array.
pub fn arr_slot_ok_exec(doc: &Json, k: &str) -> (r: bool)
    ensures
        r == arr_slot_ok(doc@, k@),
{
    match doc {
        Json::Object(_) => {
            let kc = crate::text::chars_of(k);
            match get_field(doc, kc.as_slice()) {
                Some(v) => match v {
                    Json::Array(_) => true,
                    _ => false,
                },
                None => true,
            }
        },
        _ => false,
    }
}

/// `entry(k).or_insert([])` replaced by the array `a`.
pub open spec fn put_arr(d: JsonV, k: Seq<char>, a: Seq<JsonV>) -> JsonV {
    set_at(with_entry(d, k, JsonV::Array(Seq::empty())), k, JsonV::Array(a))
}

/// An edit of a string array.
pub enum ArrEdit {
    /// Drop the first occurrence.
    Remove,
    /// Leave the array as it is.
    Keep,
    /// Append.
    Push,
    /// Sorted insertion.
    SortedInsert,
}

pub open spec fn arr_edit_spec(e: ArrEdit, a: Seq<JsonV>, id: Seq<char>) -> Seq<JsonV> {
    match e {
        ArrEdit::Remove => remove_str(a, id),
        ArrEdit::Keep => a,
        ArrEdit::Push => a.push(JsonV::Str(id)),
        ArrEdit::SortedInsert => sorted_insert(a, id),
    }
}

/// Edits the array field `k` (created empty when absent); answers whether
/// the array held `id` before the edit.
pub fn arr_edit(doc: &mut Json, k: &str, e: ArrEdit, id: &[char]) -> (r: bool)
    requires
        arr_slot_ok(old(doc)@, k@),
    ensures
        final(doc)@ == put_arr(old(doc)@, k@, arr_edit_spec(e, arr_at(old(doc)@, k@), id@)),
        r == arr_at(old(doc)@, k@).contains(JsonV::Str(id@)),
{
    let ghost d0 = doc@;
    let mut owned = Json::Null;
    std::mem::swap(&mut owned, doc);
    match owned {
        Json::Object(mut fs) => {
            let ghost fs0 = fs@;
            proof {
                lemma_view_obj(fs0);
            }
            let i = ensure_entry(&mut fs, k, Json::Array(Vec::new()));
            let ghost fs1 = fs@;
            proof {
                lemma_view_obj(fs1);
                lemma_key_index_some_inv(view_obj(fs1), k@);
                lemma_key_index_some(view_obj(fs1), k@);
                if has_key(view_obj(fs0), k@) {
                    lemma_key_index_some(view_obj(fs0), k@);
                    assert(view_obj(fs1) == view_obj(fs0));
                    assert(json_view(fs1[i as int].1) == get(d0, k@)->0);
                } else {
                    assert(get(d0, k@) is None);
                    assert(view_arr(Seq::<Json>::empty()) =~= Seq::<JsonV>::empty());
                    let w = view_obj(fs0).push((k@, JsonV::Array(Seq::<JsonV>::empty())));
                    assert(view_obj(fs1) == w);
                    if (i as int) < fs0.len() {
                        assert(w[i as int].0 == k@);
                        assert(has_key(view_obj(fs0), k@));
                    }
                    assert(view_obj(fs1)[i as int] == (k@, JsonV::Array(Seq::<JsonV>::empty())));
                    assert(json_view(fs1[i as int].1) == JsonV::Array(Seq::<JsonV>::empty()));
                }
            }
            let mut slot: (String, Json) = (String::new(), Json::Null);
            fs.set_and_swap(i, &mut slot);
            let (key, val) = slot;
            match val {
                Json::Array(mut a) => {
                    let ghost a0 = view_arr(a@);
                    assert(a0 == arr_at(d0, k@));
                    let found = contains_str_value(&a, id);
                    match e {
                        ArrEdit::Remove => {
                            take_str(&mut a, id);
                        },
                        ArrEdit::Keep => {},
                        ArrEdit::Push => {
                            let ghost before = a@;
                            a.push(str_value(id));
                            proof {
                                lemma_view_arr(a@);
                                lemma_view_arr(before);
                                assert(view_arr(a@) =~= view_arr(before).push(JsonV::Str(id@)));
                            }
                        },
                        ArrEdit::SortedInsert => {
                            insert_sorted_str(&mut a, id);
                            proof {
                                let p = choose|p: int| sorted_pos(a0, id@, p) && view_arr(a@) == insert_sorted_spec(a0, id@, p);
                                lemma_sorted_insert(a0, id@, p);
                            }
                        },
                    }
                    let ghost a1 = view_arr(a@);
                    fs.set(i, (key, Json::Array(a)));
                    proof {
                        lemma_view_obj(fs@);
                        assert(view_obj(fs@) =~= view_obj(fs1).update(i as int, (k@, JsonV::Array(a1))));
                    }
                    *doc = Json::Object(fs);
                    found
                },
                other => {
                    proof {
                        assert(false);
                    }
                    fs.set(i, (key, other));
                    *doc = Json::Object(fs);
                    false
                },
            }
        },
        other => {
            proof {
                assert(false);
            }
            *doc = other;
            false
        },
    }
}


// --- facts about field edits -----------------------------------------------------

/// Lookups depend on the keys alone.
pub proof fn lemma_same_keys(fs: Seq<(Seq<char>, JsonV)>, fs2: Seq<(Seq<char>, JsonV)>, k: Seq<char>)
    requires
        fs.len() == fs2.len(),
        forall|j: int| 0 <= j < fs.len() ==> #[trigger] fs[j].0 == fs2[j].0,
    ensures
        has_key(fs, k) == has_key(fs2, k),
        key_index(fs, k) == key_index(fs2, k),
{
    if has_key(fs, k) {
        let j = choose|j: int| 0 <= j < fs.len() && fs[j].0 == k;
        assert(fs2[j].0 == k);
        lemma_key_index_some(fs, k);
        let m = key_index(fs, k)->0;
        assert forall|j: int| 0 <= j < m implies fs2[j].0 != k by {
            assert(fs[j].0 == fs2[j].0);
        }
        assert(fs[m].0 == fs2[m].0);
        assert(is_first_key(fs2, k, m));
        lemma_key_index(fs2, k, m);
    } else if has_key(fs2, k) {
        let j = choose|j: int| 0 <= j < fs2.len() && fs2[j].0 == k;
        assert(fs[j].0 == k);
    }
}

/// What `get` sees after `with_entry`.
pub proof fn lemma_with_entry_get(d: JsonV, k: Seq<char>, dflt: JsonV, k2: Seq<char>)
    requires
        d is Object,
    ensures
        with_entry(d, k, dflt) is Object,
        get(with_entry(d, k, dflt), k2) == (if k2 == k && get(d, k) is None {
            Some(dflt)
        } else {
            get(d, k2)
        }),
{
    let fs = d->Object_0;
    if !has_key(fs, k) {
        let fs2 = fs.push((k, dflt));
        if has_key(fs, k2) {
            lemma_key_index_some(fs, k2);
            let m = key_index(fs, k2)->0;
            assert(is_first_key(fs2, k2, m));
            lemma_key_index(fs2, k2, m);
        } else if k2 == k {
            assert(is_first_key(fs2, k2, fs.len() as int));
            lemma_key_index(fs2, k2, fs.len() as int);
        } else {
            assert(!has_key(fs2, k2)) by {
                if has_key(fs2, k2) {
                    let j = choose|j: int| 0 <= j < fs2.len() && fs2[j].0 == k2;
                    assert(j < fs.len());
                    assert(fs[j].0 == k2);
                }
            }
        }
    }
}

/// What `get` sees after `set_at`.
pub proof fn lemma_set_at_get_same(d: JsonV, k: Seq<char>, nv: JsonV)
    ensures
        get(set_at(d, k, nv), k) == (if get(d, k) is Some {
            Some(nv)
        } else {
            None::<JsonV>
        }),
        d is Object ==> set_at(d, k, nv) is Object,
{
    match d {
        JsonV::Object(fs) => {
            match key_index(fs, k) {
                Some(i) => {
                    lemma_key_index_some_inv(fs, k);
                    lemma_key_index_some(fs, k);
                    let fs2 = fs.update(i, (fs[i].0, nv));
                    lemma_same_keys(fs, fs2, k);
                },
                None => {},
            }
        },
        _ => {},
    }
}

/// `put_arr` leaves the array readable under `k` and the other fields alone.
pub proof fn lemma_put_arr(d: JsonV, k: Seq<char>, a: Seq<JsonV>, k2: Seq<char>)
    requires
        d is Object,
    ensures
        put_arr(d, k, a) is Object,
        get(put_arr(d, k, a), k) == Some(JsonV::Array(a)),
        arr_at(put_arr(d, k, a), k) == a,
        arr_slot_ok(put_arr(d, k, a), k),
        k2 != k ==> get(put_arr(d, k, a), k2) == get(d, k2),
{
    let w = with_entry(d, k, JsonV::Array(Seq::empty()));
    lemma_with_entry_get(d, k, JsonV::Array(Seq::empty()), k);
    lemma_with_entry_get(d, k, JsonV::Array(Seq::empty()), k2);
    lemma_set_at_get_same(w, k, JsonV::Array(a));
    if k2 != k {
        lemma_set_at_get(w, k, JsonV::Array(a), k2);
    }
}

/// Writing back the array already stored under `k` changes nothing.
pub proof fn lemma_put_arr_same(d: JsonV, k: Seq<char>)
    requires
        d is Object,
        get(d, k) matches Some(v) && v is Array,
    ensures
        put_arr(d, k, arr_at(d, k)) == d,
{
    let fs = d->Object_0;
    lemma_key_index_some_inv(fs, k);
    lemma_key_index_some(fs, k);
    let i = key_index(fs, k)->0;
    assert(fs.update(i, (fs[i].0, JsonV::Array(arr_at(d, k)))) =~= fs);
}

/// A second `put_arr` on the same field overrides the first.
pub proof fn lemma_put_arr_twice(d: JsonV, k: Seq<char>, a: Seq<JsonV>, b: Seq<JsonV>)
    requires
        d is Object,
    ensures
        put_arr(put_arr(d, k, a), k, b) == put_arr(d, k, b),
{
    let w = with_entry(d, k, JsonV::Array(Seq::empty()));
    lemma_with_entry_get(d, k, JsonV::Array(Seq::empty()), k);
    let wfs = w->Object_0;
    lemma_key_index_some_inv(wfs, k);
    lemma_key_index_some(wfs, k);
    let i = key_index(wfs, k)->0;
    let fa = wfs.update(i, (wfs[i].0, JsonV::Array(a)));
    lemma_same_keys(wfs, fa, k);
    assert(has_key(fa, k));
    assert(with_entry(JsonV::Object(fa), k, JsonV::Array(Seq::empty())) == JsonV::Object(fa));
    assert(fa.update(i, (fa[i].0, JsonV::Array(b))) =~= wfs.update(i, (wfs[i].0, JsonV::Array(b))));
}

/// `JsonV` of a field vector after one field is replaced.
pub proof fn lemma_set_field(fs0: Seq<(String, Json)>, i: int, k: Seq<char>, key: String, nv: Json)
    requires
        key_index(view_obj(fs0), k) == Some(i),
        key@ == k,
    ensures
        0 <= i < fs0.len(),
        JsonV::Object(view_obj(fs0.update(i, (key, nv)))) == set_at(JsonV::Object(view_obj(fs0)), k, nv@),
{
    lemma_view_obj(fs0);
    lemma_key_index_some_inv(view_obj(fs0), k);
    lemma_key_index_some(view_obj(fs0), k);
    lemma_view_obj(fs0.update(i, (key, nv)));
    assert(view_obj(fs0.update(i, (key, nv))) =~= view_obj(fs0).update(i, (view_obj(fs0)[i].0, nv@)));
}

/// The value `get` finds at a known field index.
pub proof fn lemma_get_field(fs: Seq<(String, Json)>, i: int, k: Seq<char>)
    requires
        key_index(view_obj(fs), k) == Some(i),
    ensures
        0 <= i < fs.len(),
        fs[i].0@ == k,
        get(JsonV::Object(view_obj(fs)), k) == Some(json_view(fs[i].1)),
{
    lemma_view_obj(fs);
    lemma_key_index_some_inv(view_obj(fs), k);
    lemma_key_index_some(view_obj(fs), k);
}


/// Putting back a field value with the same view restores the object's view.
pub proof fn lemma_restore_field(fs0: Seq<(String, Json)>, i: int, k: Seq<char>, key: String, nv: Json)
    requires
        key_index(view_obj(fs0), k) == Some(i),
        key@ == k,
        0 <= i < fs0.len(),
        json_view(nv) == json_view(fs0[i].1),
    ensures
        view_obj(fs0.update(i, (key, nv))) == view_obj(fs0),
{
    lemma_view_obj(fs0);
    lemma_view_obj(fs0.update(i, (key, nv)));
    lemma_key_index_some_inv(view_obj(fs0), k);
    lemma_key_index_some(view_obj(fs0), k);
    assert(view_obj(fs0.update(i, (key, nv))) =~= view_obj(fs0));
}

} // verus!
