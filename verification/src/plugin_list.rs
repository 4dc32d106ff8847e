//! Bare `opb plugin list`: the read-only view of plugin state. Rows are
//! manifests × shell.json storage rules × live conflicts. Reading the files
//! and listing the bus happen at the edge.
use vstd::prelude::*;

use crate::check::{checks_view, CheckResult, Status};
use crate::doctor::conflicts::{scan_enabled, scan_enabled_spec};
use crate::doctor::shellcfg::{enabled_components, enabled_spec, listed_disabled};
use crate::json::{arr_at, contains_str_value, get, get_field, Json, JsonV};
use crate::selection::first_party;
use crate::shelljson::{has_kind, layout_fields, ManifestInfo};
use crate::text::{
    chars_of, eq_str, extend_chars, extend_str, lex_lt, pad_right, push_padded, seq_eq, str_lt, string_of,
    sviews, trim_end, trim_end_exec,
};

verus! {

/// A manifest plus where it was found.
#[derive(Debug, Clone)]
pub struct Scanned {
    pub info: ManifestInfo,
    pub origin: &'static str,
}

/// First-party ids live in the reserved `omarchy.` namespace (the dot
/// included: "omarchish" does not match).
pub fn is_first_party(id: &str) -> (r: bool)
    ensures
        r == first_party(id@),
{
    crate::selection::is_first_party(id)
}

/// Is `v` an array holding the string `id`?
pub open spec fn holds_str(v: JsonV, id: Seq<char>) -> bool {
    v matches JsonV::Array(a) && a.contains(JsonV::Str(id))
}

/// Does some layout section (any field of `bar.layout`) hold `id`?
pub open spec fn placed_in_layout(d: JsonV, id: Seq<char>) -> bool {
    match layout_fields(d) {
        Some(lf) => exists|j: int| 0 <= j < lf.len() && #[trigger] holds_str(lf[j].1, id),
        None => false,
    }
}

/// Is `id` in `plugins[]`?
pub open spec fn in_plugins(d: JsonV, id: Seq<char>) -> bool {
    arr_at(d, "plugins"@).contains(JsonV::Str(id))
}

pub fn placed_in_layout_exec(doc: &Json, id: &[char]) -> (r: bool)
    ensures
        r == placed_in_layout(doc@, id@),
{
    let bk = chars_of("bar");
    let lk = chars_of("layout");
    let bar = match get_field(doc, bk.as_slice()) {
        Some(b) => b,
        None => {
            return false;
        },
    };
    let layout = match bar {
        Json::Object(_) => match get_field(bar, lk.as_slice()) {
            Some(l) => l,
            None => {
                return false;
            },
        },
        _ => {
            return false;
        },
    };
    match layout {
        Json::Object(lf) => {
            proof {
                crate::json::lemma_view_obj(lf@);
            }
            let ghost lv = crate::json::view_obj(lf@);
            assert(layout_fields(doc@) == Some(lv));
            let mut j: usize = 0;
            while j < lf.len()
                invariant
                    layout_fields(doc@) == Some(lv),
                    j <= lf.len(),
                    lv == crate::json::view_obj(lf@),
                    lv.len() == lf.len(),
                    forall|k: int| 0 <= k < j ==> !#[trigger] holds_str(lv[k].1, id@),
                decreases lf.len() - j,
            {
                assert(lv[j as int].1 == lf@[j as int].1@);
                match &lf[j].1 {
                    Json::Array(a) => {
                        if contains_str_value(a, id) {
                            assert(holds_str(lv[j as int].1, id@));
                            assert(exists|k: int| 0 <= k < lv.len() && #[trigger] holds_str(lv[k].1, id@));
                            let ghost lf2 = layout_fields(doc@)->0;
                            assert(lf2 == lv);
                            assert(placed_in_layout(doc@, id@));
                            return true;
                        }
                    },
                    _ => {},
                }
                j += 1;
            }
            false
        },
        _ => false,
    }
}

fn is_in_plugins(doc: &Json, id: &[char]) -> (r: bool)
    ensures
        r == in_plugins(doc@, id@),
{
    let k = chars_of("plugins");
    match get_field(doc, k.as_slice()) {
        Some(v) => match v {
            Json::Array(a) => contains_str_value(a, id),
            _ => false,
        },
        None => false,
    }
}

fn is_listed_disabled(doc: &Json, id: &[char]) -> (r: bool)
    ensures
        r == listed_disabled(doc@, id@),
{
    let k = chars_of("disabledPlugins");
    match get_field(doc, k.as_slice()) {
        Some(v) => match v {
            Json::Array(a) => contains_str_value(a, id),
            _ => false,
        },
        None => false,
    }
}

/// Enabled or disabled: the storage rules for services and panels, layout
/// membership for bar widgets (a widget renders iff it occupies a slot), and
/// `bar` for the bar itself.
pub open spec fn state_spec(d: JsonV, kinds: Seq<Seq<char>>, id: Seq<char>) -> Seq<char> {
    if kinds.contains("bar"@) {
        "bar"@
    } else if kinds.contains("bar-widget"@) {
        if placed_in_layout(d, id) {
            "on"@
        } else {
            "off"@
        }
    } else if first_party(id) {
        if listed_disabled(d, id) {
            "off"@
        } else {
            "on"@
        }
    } else if placed_in_layout(d, id) || in_plugins(d, id) {
        "on"@
    } else {
        "off"@
    }
}

fn kinds_contain(kinds: &[String], k: &str) -> (r: bool)
    ensures
        r == sviews(kinds@).contains(k@),
{
    let kc = chars_of(k);
    crate::shelljson::contains_string(kinds, kc.as_slice())
}

pub fn state_of(doc: &Json, kinds: &[String], id: &str) -> (r: &'static str)
    ensures
        r@ == state_spec(doc@, sviews(kinds@), id@),
{
    if kinds_contain(kinds, "bar") {
        return "bar";
    }
    let idc = chars_of(id);
    let placed = placed_in_layout_exec(doc, idc.as_slice());
    if kinds_contain(kinds, "bar-widget") {
        return if placed {
            "on"
        } else {
            "off"
        };
    }
    if is_first_party(id) {
        if is_listed_disabled(doc, idc.as_slice()) {
            "off"
        } else {
            "on"
        }
    } else if placed || is_in_plugins(doc, idc.as_slice()) {
        "on"
    } else {
        "off"
    }
}

/// One list row (display only).
#[derive(Debug, Clone, PartialEq)]
pub struct Row {
    pub id: String,
    pub origin: &'static str,
    pub kind: String,
    pub state: &'static str,
    pub conflict: Option<String>,
}

/// Kinds joined with `,`, or `-` when there are none.
pub open spec fn kind_text(kinds: Seq<Seq<char>>) -> Seq<char>
    decreases kinds.len(),
{
    if kinds.len() == 0 {
        "-"@
    } else if kinds.len() == 1 {
        kinds[0]
    } else {
        kind_text(kinds.drop_last()) + ","@ + kinds.last()
    }
}

fn kind_of(kinds: &[String]) -> (r: String)
    ensures
        r@ == kind_text(sviews(kinds@)),
{
    if kinds.len() == 0 {
        return "-".to_owned();
    }
    let mut v: Vec<char> = Vec::new();
    let mut i: usize = 0;
    while i < kinds.len()
        invariant
            i <= kinds.len(),
            kinds.len() > 0,
            i > 0 ==> v@ == kind_text(sviews(kinds@).take(i as int)),
            i == 0 ==> v@.len() == 0,
        decreases kinds.len() - i,
    {
        let ghost t = sviews(kinds@).take(i + 1);
        assert(t.drop_last() == sviews(kinds@).take(i as int));
        assert(t.last() == kinds@[i as int]@);
        if i > 0 {
            v.push(',');
            proof {
                reveal_strlit(",");
            }
        }
        crate::text::extend_str(&mut v, kinds[i].as_str());
        i += 1;
    }
    assert(sviews(kinds@).take(kinds.len() as int) == sviews(kinds@));
    string_of(v.as_slice())
}

/// The detail of the first conflict row named `id` that is a warning or a
/// note with text.
pub open spec fn conflict_for(cs: Seq<(Seq<char>, Seq<char>, Option<Seq<char>>)>, id: Seq<char>) -> Option<Seq<char>>
    decreases cs.len(),
{
    if cs.len() == 0 {
        None
    } else if cs[0].0 == id {
        if (cs[0].1 == "WARN"@ || cs[0].1 == "INFO"@) && (cs[0].2 matches Some(d) && d.len() > 0) {
            cs[0].2
        } else {
            None
        }
    } else {
        conflict_for(cs.skip(1), id)
    }
}

fn conflict_of(conflicts: &[CheckResult], id: &str) -> (r: Option<String>)
    ensures
        match r {
            Some(s) => conflict_for(checks_view(conflicts@), id@) == Some(s@),
            None => conflict_for(checks_view(conflicts@), id@) is None,
        },
{
    let ghost cv = checks_view(conflicts@);
    let idc = chars_of(id);
    let mut i: usize = 0;
    assert(cv.skip(0) =~= cv);
    while i < conflicts.len()
        invariant
            i <= conflicts.len(),
            cv == checks_view(conflicts@),
            idc@ == id@,
            conflict_for(cv, id@) == conflict_for(cv.skip(i as int), id@),
        decreases conflicts.len() - i,
    {
        let c = &conflicts[i];
        assert(cv.skip(i as int)[0] == crate::check::check_view(*c));
        assert(cv.skip(i as int).skip(1) =~= cv.skip(i + 1));
        let nc = chars_of(c.name);
        if seq_eq(nc.as_slice(), idc.as_slice()) {
            proof {
                crate::check::lemma_labels_distinct();
            }
            let ghost rest = cv.skip(i as int);
            assert(rest[0].0 == id@);
            return match &c.status {
                Status::Warn(d) => if chars_of(d.as_str()).len() > 0 {
                    assert(rest[0].2 == Some(d@));
                    assert(conflict_for(rest, id@) == Some(d@));
                    Some(d.clone())
                } else {
                    None
                },
                Status::Info(d) => if chars_of(d.as_str()).len() > 0 {
                    assert(rest[0].2 == Some(d@));
                    assert(conflict_for(rest, id@) == Some(d@));
                    Some(d.clone())
                } else {
                    None
                },
                _ => None,
            };
        }
        i += 1;
    }
    assert(cv.skip(conflicts.len() as int) =~= Seq::<(Seq<char>, Seq<char>, Option<Seq<char>>)>::empty());
    None
}

pub open spec fn row_view(r: Row) -> (Seq<char>, Seq<char>, Seq<char>, Seq<char>, Option<Seq<char>>) {
    (r.id@, r.origin@, r.kind@, r.state@, crate::keys::opt_str(r.conflict))
}

pub open spec fn rows_view(rs: Seq<Row>) -> Seq<(Seq<char>, Seq<char>, Seq<char>, Seq<char>, Option<Seq<char>>)> {
    rs.map_values(|r: Row| row_view(r))
}

/// The row for one scanned manifest.
pub open spec fn row_for(
    d: JsonV,
    s: Scanned,
    cs: Seq<(Seq<char>, Seq<char>, Option<Seq<char>>)>,
) -> (Seq<char>, Seq<char>, Seq<char>, Seq<char>, Option<Seq<char>>) {
    (
        s.info.id@,
        s.origin@,
        kind_text(sviews(s.info.kinds@)),
        state_spec(d, sviews(s.info.kinds@), s.info.id@),
        conflict_for(cs, s.info.id@),
    )
}

pub type RowV = (Seq<char>, Seq<char>, Seq<char>, Seq<char>, Option<Seq<char>>);

/// `x` inserted into id-sorted rows after every row whose id is not
/// greater (so rows with equal ids keep their order).
pub open spec fn insert_by_id(o: Seq<RowV>, x: RowV) -> Seq<RowV>
    decreases o.len(),
{
    if o.len() == 0 {
        seq![x]
    } else if lex_lt(x.0, o[0].0) {
        seq![x] + o
    } else {
        seq![o[0]] + insert_by_id(o.drop_first(), x)
    }
}

/// A stable sort of rows by id.
pub open spec fn sort_by_id(s: Seq<RowV>) -> Seq<RowV>
    decreases s.len(),
{
    if s.len() == 0 {
        Seq::empty()
    } else {
        insert_by_id(sort_by_id(s.drop_last()), s.last())
    }
}

proof fn lemma_insert_at(o: Seq<RowV>, x: RowV, p: int)
    requires
        0 <= p <= o.len(),
        forall|k: int| 0 <= k < p ==> !lex_lt(x.0, #[trigger] o[k].0),
        p < o.len() ==> lex_lt(x.0, o[p].0),
    ensures
        o.insert(p, x) == insert_by_id(o, x),
    decreases o.len(),
{
    if o.len() == 0 {
        assert(o.insert(p, x) =~= seq![x]);
    } else if p == 0 {
        assert(o.insert(p, x) =~= seq![x] + o);
    } else {
        assert(!lex_lt(x.0, o[0].0));
        let t = o.drop_first();
        assert forall|k: int| 0 <= k < p - 1 implies !lex_lt(x.0, #[trigger] t[k].0) by {
            assert(t[k] == o[k + 1]);
        }
        lemma_insert_at(t, x, p - 1);
        assert(o.insert(p, x) =~= seq![o[0]] + t.insert(p - 1, x));
    }
}

/// Display rows from the document, the scanned manifests and the live bus
/// processes: conflicts are gated on the enabled matrix components, and the
/// rows come out stably sorted by id (equal ids in scan order).
pub fn rows_from(doc: &Json, scanned: &[Scanned], processes: &[String]) -> (r: Vec<Row>)
    ensures
        rows_view(r@) == sort_by_id(Seq::new(
            scanned@.len(),
            |i: int| row_for(doc@, scanned@[i], scan_enabled_spec(sviews(processes@), enabled_spec(doc@))),
        )),
{
    let enabled = enabled_components(doc);
    let conflicts = scan_enabled(processes, enabled.as_slice());
    let ghost cs = checks_view(conflicts@);
    let ghost want = Seq::new(
        scanned@.len(),
        |i: int| row_for(doc@, scanned@[i], scan_enabled_spec(sviews(processes@), enabled_spec(doc@))),
    );
    let mut out: Vec<Row> = Vec::new();
    let mut i: usize = 0;
    assert(want.take(0) =~= Seq::<RowV>::empty());
    assert(rows_view(out@) =~= Seq::<RowV>::empty());
    while i < scanned.len()
        invariant
            i <= scanned.len(),
            cs == checks_view(conflicts@),
            cs == scan_enabled_spec(sviews(processes@), enabled_spec(doc@)),
            want == Seq::new(
                scanned@.len(),
                |i: int| row_for(doc@, scanned@[i], scan_enabled_spec(sviews(processes@), enabled_spec(doc@))),
            ),
            rows_view(out@) == sort_by_id(want.take(i as int)),
        decreases scanned.len() - i,
    {
        let s = &scanned[i];
        let state = state_of(doc, s.info.kinds.as_slice(), s.info.id.as_str());
        let conflict = conflict_of(conflicts.as_slice(), s.info.id.as_str());
        let row = Row {
            id: s.info.id.clone(),
            origin: s.origin,
            kind: kind_of(s.info.kinds.as_slice()),
            state,
            conflict,
        };
        assert(row_view(row) == want[i as int]);
        let ghost o = rows_view(out@);
        let mut p: usize = 0;
        while p < out.len() && !str_lt(row.id.as_str(), out[p].id.as_str())
            invariant
                p <= out.len(),
                o == rows_view(out@),
                row_view(row).0 == row.id@,
                forall|k: int| 0 <= k < p ==> !lex_lt(row.id@, #[trigger] o[k].0),
            decreases out.len() - p,
        {
            p += 1;
        }
        let ghost rv = row_view(row);
        out.insert(p, row);
        proof {
            let n = rows_view(out@);
            assert(n =~= o.insert(p as int, rv));
            lemma_insert_at(o, rv, p as int);
            assert(want.take(i + 1).drop_last() =~= want.take(i as int));
            assert(want.take(i + 1).last() == rv);
        }
        i += 1;
    }
    assert(want.take(scanned.len() as int) =~= want);
    out
}


/// A layout entry naming `id`: the id string itself, or an object whose
/// `id` field is that string.
pub open spec fn entry_names(v: JsonV, id: Seq<char>) -> bool {
    v == JsonV::Str(id) || (v is Object && get(v, "id"@) == Some(JsonV::Str(id)))
}

pub open spec fn section_places(d: JsonV, key: Seq<char>, id: Seq<char>) -> bool {
    match crate::selection::section_arr(d, key) {
        Some(a) => exists|k: int| 0 <= k < a.len() && #[trigger] entry_names(a[k], id),
        None => false,
    }
}

/// The first layout section (left, center, right) with an entry naming `id`.
pub open spec fn placed_section_spec(d: JsonV, id: Seq<char>) -> Option<Seq<char>> {
    if section_places(d, "left"@, id) {
        Some("left"@)
    } else if section_places(d, "center"@, id) {
        Some("center"@)
    } else if section_places(d, "right"@, id) {
        Some("right"@)
    } else {
        None
    }
}

fn entry_names_exec(v: &Json, id: &[char]) -> (r: bool)
    ensures
        r == entry_names(v@, id@),
{
    match v {
        Json::Str(_) => crate::json::is_str(v, id),
        Json::Object(_) => {
            let k = chars_of("id");
            match get_field(v, k.as_slice()) {
                Some(x) => crate::json::is_str(x, id),
                None => false,
            }
        },
        _ => false,
    }
}

fn section_places_exec(doc: &Json, key: &str, id: &[char]) -> (r: bool)
    ensures
        r == section_places(doc@, key@, id@),
{
    let bk = chars_of("bar");
    let lk = chars_of("layout");
    let kc = chars_of(key);
    let bar = match get_field(doc, bk.as_slice()) {
        Some(b) => b,
        None => {
            return false;
        },
    };
    let layout = match bar {
        Json::Object(_) => match get_field(bar, lk.as_slice()) {
            Some(l) => l,
            None => {
                return false;
            },
        },
        _ => {
            return false;
        },
    };
    match layout {
        Json::Object(_) => {},
        _ => {
            return false;
        },
    }
    let sec = match get_field(layout, kc.as_slice()) {
        Some(s) => s,
        None => {
            return false;
        },
    };
    match sec {
        Json::Array(a) => {
            proof {
                crate::json::lemma_view_arr(a@);
            }
            let ghost av = crate::json::view_arr(a@);
            assert(crate::selection::section_arr(doc@, key@) == Some(av));
            let mut k: usize = 0;
            while k < a.len()
                invariant
                    k <= a.len(),
                    av == crate::json::view_arr(a@),
                    av.len() == a.len(),
                    crate::selection::section_arr(doc@, key@) == Some(av),
                    forall|q: int| 0 <= q < k ==> !#[trigger] entry_names(av[q], id@),
                decreases a.len() - k,
            {
                assert(av[k as int] == a@[k as int]@);
                if entry_names_exec(&a[k], id) {
                    assert(entry_names(av[k as int], id@));
                    assert(exists|q: int| 0 <= q < av.len() && #[trigger] entry_names(av[q], id@));
                    let ghost sa = crate::selection::section_arr(doc@, key@)->0;
                    assert(sa == av);
                    assert(section_places(doc@, key@, id@));
                    return true;
                }
                k += 1;
            }
            false
        },
        _ => false,
    }
}

/// The layout section holding `id` (string or object entries), if any.
pub fn placed_section(doc: &Json, id: &str) -> (r: Option<&'static str>)
    ensures
        match r {
            Some(s) => placed_section_spec(doc@, id@) == Some(s@),
            None => placed_section_spec(doc@, id@) is None,
        },
{
    let idc = chars_of(id);
    if section_places_exec(doc, "left", idc.as_slice()) {
        Some("left")
    } else if section_places_exec(doc, "center", idc.as_slice()) {
        Some("center")
    } else if section_places_exec(doc, "right", idc.as_slice()) {
        Some("right")
    } else {
        None
    }
}

// --- rendering ---------------------------------------------------------------

/// Column `k` of a row: 0 state, 1 id, 2 origin, 3 kind.
pub open spec fn column(r: Row, k: int) -> Seq<char> {
    if k == 0 {
        r.state@
    } else if k == 1 {
        r.id@
    } else if k == 2 {
        r.origin@
    } else {
        r.kind@
    }
}

/// The widest value of column `k` over `rs` in bytes (as `str::len`
/// counts), and at least `floor`.
pub open spec fn col_width(rs: Seq<Row>, k: int, floor: nat) -> nat
    decreases rs.len(),
{
    if rs.len() == 0 {
        floor
    } else {
        let w = col_width(rs.drop_last(), k, floor);
        let n = crate::text::byte_len(column(rs.last(), k));
        if n > w {
            n
        } else {
            w
        }
    }
}

/// Column widths: state, id, origin, kind (header words set the floors).
pub open spec fn widths(rs: Seq<Row>) -> (nat, nat, nat, nat) {
    (col_width(rs, 0, 5), col_width(rs, 1, 2), col_width(rs, 2, 6), col_width(rs, 3, 4))
}

pub open spec fn any_conflict(rs: Seq<Row>) -> bool {
    exists|i: int| 0 <= i < rs.len() && rs[i].conflict is Some
}

/// The four leading cells, padded and separated by two spaces.
pub open spec fn cells(a: Seq<char>, b: Seq<char>, c: Seq<char>, w: (nat, nat, nat, nat)) -> Seq<char> {
    pad_right(a, w.0) + "  "@ + pad_right(b, w.1) + "  "@ + pad_right(c, w.2) + "  "@
}

pub open spec fn header_line(w: (nat, nat, nat, nat), show: bool) -> Seq<char> {
    cells("STATE"@, "ID"@, "ORIGIN"@, w) + if show {
        pad_right("KIND"@, w.3) + "  CONFLICT\n"@
    } else {
        "KIND\n"@
    }
}

pub open spec fn conflict_text(c: Option<String>) -> Seq<char> {
    match c {
        Some(x) => x@,
        None => Seq::empty(),
    }
}

pub open spec fn row_line(r: Row, w: (nat, nat, nat, nat), show: bool) -> Seq<char> {
    trim_end(
        cells(r.state@, r.id@, r.origin@, w) + if show {
            pad_right(r.kind@, w.3) + "  "@ + conflict_text(r.conflict)
        } else {
            r.kind@
        },
    ) + "\n"@
}

pub open spec fn row_lines(rs: Seq<Row>, w: (nat, nat, nat, nat), show: bool) -> Seq<char>
    decreases rs.len(),
{
    if rs.len() == 0 {
        Seq::empty()
    } else {
        row_lines(rs.drop_last(), w, show) + row_line(rs.last(), w, show)
    }
}

/// The whole table: header, then one right-trimmed line per row.
pub open spec fn render_rows_spec(rs: Seq<Row>) -> Seq<char> {
    header_line(widths(rs), any_conflict(rs)) + row_lines(rs, widths(rs), any_conflict(rs))
}

fn column_width_exec(r: &Row, k: usize) -> (n: usize)
    requires
        k < 4,
    ensures
        n as nat == crate::text::byte_len(column(*r, k as int)),
{
    if k == 0 {
        crate::text::byte_len_exec(r.state)
    } else if k == 1 {
        crate::text::byte_len_exec(r.id.as_str())
    } else if k == 2 {
        crate::text::byte_len_exec(r.origin)
    } else {
        crate::text::byte_len_exec(r.kind.as_str())
    }
}

fn col_width_exec(rows: &[Row], k: usize, floor: usize) -> (w: usize)
    requires
        k < 4,
    ensures
        w == col_width(rows@, k as int, floor as nat),
{
    let mut w = floor;
    let mut i: usize = 0;
    while i < rows.len()
        invariant
            i <= rows.len(),
            k < 4,
            w == col_width(rows@.take(i as int), k as int, floor as nat),
        decreases rows.len() - i,
    {
        assert(rows@.take(i as int + 1).drop_last() == rows@.take(i as int));
        let n = column_width_exec(&rows[i], k);
        if n > w {
            w = n;
        }
        i += 1;
    }
    assert(rows@.take(rows.len() as int) == rows@);
    w
}

fn push_cells(out: &mut Vec<char>, a: &[char], b: &[char], c: &[char], w: (usize, usize, usize, usize))
    ensures
        final(out)@ == old(out)@ + cells(a@, b@, c@, (w.0 as nat, w.1 as nat, w.2 as nat, w.3 as nat)),
{
    push_padded(out, a, w.0);
    extend_str(out, "  ");
    push_padded(out, b, w.1);
    extend_str(out, "  ");
    push_padded(out, c, w.2);
    extend_str(out, "  ");
}

/// Aligned plain-text table; the conflict column is there only when some row
/// has a conflict.
pub fn render_rows(rows: &[Row]) -> (r: String)
    ensures
        r@ == render_rows_spec(rows@),
{
    let mut show = false;
    let mut i: usize = 0;
    while i < rows.len()
        invariant
            i <= rows.len(),
            show == exists|j: int| 0 <= j < i && rows@[j].conflict is Some,
        decreases rows.len() - i,
    {
        if rows[i].conflict.is_some() {
            show = true;
        }
        i += 1;
    }
    let w = (
        col_width_exec(rows, 0, 5),
        col_width_exec(rows, 1, 2),
        col_width_exec(rows, 2, 6),
        col_width_exec(rows, 3, 4),
    );
    let ghost wn = (w.0 as nat, w.1 as nat, w.2 as nat, w.3 as nat);
    assert(wn == widths(rows@));
    let mut out: Vec<char> = Vec::new();
    let st = chars_of("STATE");
    let id = chars_of("ID");
    let or = chars_of("ORIGIN");
    push_cells(&mut out, st.as_slice(), id.as_slice(), or.as_slice(), w);
    if show {
        let kd = chars_of("KIND");
        push_padded(&mut out, kd.as_slice(), w.3);
        extend_str(&mut out, "  CONFLICT\n");
    } else {
        extend_str(&mut out, "KIND\n");
    }
    assert(out@ == header_line(wn, show));
    let ghost head = out@;
    let mut i: usize = 0;
    while i < rows.len()
        invariant
            i <= rows.len(),
            wn == (w.0 as nat, w.1 as nat, w.2 as nat, w.3 as nat),
            out@ == head + row_lines(rows@.take(i as int), wn, show),
        decreases rows.len() - i,
    {
        let r = &rows[i];
        let mut line: Vec<char> = Vec::new();
        let a = chars_of(r.state);
        let b = chars_of(r.id.as_str());
        let c = chars_of(r.origin);
        push_cells(&mut line, a.as_slice(), b.as_slice(), c.as_slice(), w);
        let ghost inner = cells(r.state@, r.id@, r.origin@, wn) + if show {
            pad_right(r.kind@, wn.3) + "  "@ + conflict_text(r.conflict)
        } else {
            r.kind@
        };
        if show {
            let k = chars_of(r.kind.as_str());
            push_padded(&mut line, k.as_slice(), w.3);
            extend_str(&mut line, "  ");
            match &r.conflict {
                Some(x) => {
                    extend_str(&mut line, x.as_str());
                },
                None => {
                    assert(line@ == line@ + Seq::<char>::empty());
                },
            }
        } else {
            extend_str(&mut line, r.kind.as_str());
        }
        assert(line@ == inner);
        let t = trim_end_exec(line.as_slice());
        let ghost before = out@;
        extend_chars(&mut out, t.as_slice());
        extend_str(&mut out, "\n");
        proof {
            assert(rows@.take(i as int + 1).drop_last() == rows@.take(i as int));
            assert(out@ == before + row_line(rows@[i as int], wn, show));
        }
        i += 1;
    }
    assert(rows@.take(rows.len() as int) == rows@);
    string_of(out.as_slice())
}


/// The KIND column reads back as the manifest's kinds: split at `,` it
/// gives every declared kind, in order (for kinds without a `,`); no kinds
/// read as `-`.
pub proof fn law_kind_column_reads_back(kinds: Seq<Seq<char>>)
    requires
        forall|j: int| 0 <= j < kinds.len() ==> !(#[trigger] kinds[j]).contains(','),
    ensures
        kinds.len() == 0 ==> kind_text(kinds) == "-"@,
        kinds.len() > 0 ==> crate::text::split_char(kind_text(kinds), ',') == kinds,
    decreases kinds.len(),
{
    if kinds.len() == 1 {
        let e = Seq::<char>::empty();
        crate::keys::readback::lemma_split_append(e, kinds[0], ',');
        assert(e + kinds[0] =~= kinds[0]);
        assert(crate::text::split_char(e, ',') == seq![e]);
        assert(crate::text::split_char(kinds[0], ',') =~= kinds);
    } else if kinds.len() > 1 {
        reveal_strlit(",");
        let init = kinds.drop_last();
        assert forall|j: int| 0 <= j < init.len() implies !(#[trigger] init[j]).contains(',') by {
            assert(init[j] == kinds[j]);
        }
        law_kind_column_reads_back(init);
        let k = kind_text(init);
        let a = k.push(',');
        assert(a.drop_last() =~= k);
        assert(crate::text::split_char(a, ',') == init.push(Seq::<char>::empty()));
        assert(!kinds.last().contains(',')) by {
            assert(kinds[kinds.len() - 1] == kinds.last());
        }
        crate::keys::readback::lemma_split_append(a, kinds.last(), ',');
        assert(kind_text(kinds) =~= a + kinds.last());
        assert(init.push(Seq::<char>::empty()).update(init.len() as int, Seq::<char>::empty() + kinds.last()) =~= kinds);
    }
}

} // verus!
