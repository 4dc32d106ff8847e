//! What `opb keys set` writes into keys.lua reads back: the bind state of
//! the new file gives the action exactly the combo that was set.
use vstd::prelude::*;

use crate::keys::{
    already_bound_spec, append_source_spec, bound_combos_spec, bound_fold, bound_lookup, bound_step, combo_of,
    combo_text, entry_cmd, hl_bind_arg, join_lines, lua_escape_spec, marker_id_spec, next_source_spec,
    render_entry_spec, rewrite_action_block_spec, rewrite_lines, ActionV, KEYS_HEADER,
};
use crate::keys::laws::law_combo_text_reads_back;
use crate::text::{
    contains, find_spec, is_first_occurrence, is_ws, lemma_find_spec, lemma_split_nonempty, lines, occurs_at,
    replace_all, split_char, starts_with, strip_all, strip_cr, trim, trim_end, trim_start, unquote,
};

verus! {

// --- lines of concatenated text ------------------------------------------------

/// `t` holds no `c`.
pub open spec fn free_of(t: Seq<char>, c: char) -> bool {
    !t.contains(c)
}

pub proof fn lemma_split_append(s: Seq<char>, t: Seq<char>, c: char)
    requires
        free_of(t, c),
    ensures
        split_char(s + t, c) == split_char(s, c).update(split_char(s, c).len() - 1, split_char(s, c).last() + t),
    decreases t.len(),
{
    lemma_split_nonempty(s, c);
    let r = split_char(s, c);
    if t.len() == 0 {
        assert(s + t =~= s);
        assert(r.last() + t =~= r.last());
        assert(r.update(r.len() - 1, r.last() + t) =~= r);
    } else {
        let t1 = t.drop_last();
        let x = t.last();
        assert(free_of(t1, c)) by {
            if t1.contains(c) {
                let j = choose|j: int| 0 <= j < t1.len() && t1[j] == c;
                assert(t[j] == c);
            }
        }
        assert(x != c) by {
            assert(t[t.len() - 1] == x);
        }
        lemma_split_append(s, t1, c);
        assert((s + t).drop_last() =~= s + t1);
        assert((s + t).last() == x);
        let r1 = split_char(s + t1, c);
        assert(r1.last().push(x) =~= r.last() + t);
        assert(r1.update(r1.len() - 1, r1.last().push(x)) =~= r.update(r.len() - 1, r.last() + t));
    }
}

/// Splitting text that ends with the separator, then more text: the pieces
/// of the first part (its empty tail dropped), then those of the second.
proof fn lemma_split_concat(a: Seq<char>, b: Seq<char>, c: char)
    requires
        a.len() > 0,
        a.last() == c,
    ensures
        split_char(a + b, c) == split_char(a, c).drop_last() + split_char(b, c),
    decreases b.len(),
{
    lemma_split_nonempty(a.drop_last(), c);
    lemma_split_nonempty(b, c);
    if b.len() == 0 {
        assert(a + b =~= a);
        assert(split_char(a, c) == split_char(a.drop_last(), c).push(Seq::<char>::empty()));
        assert(split_char(a, c).drop_last() + split_char(b, c) =~= split_char(a, c));
    } else {
        lemma_split_concat(a, b.drop_last(), c);
        assert((a + b).drop_last() =~= a + b.drop_last());
        assert((a + b).last() == b.last());
        let pa = split_char(a, c).drop_last();
        let pb1 = split_char(b.drop_last(), c);
        lemma_split_nonempty(b.drop_last(), c);
        if b.last() == c {
            assert((pa + pb1).push(Seq::<char>::empty()) =~= pa + pb1.push(Seq::<char>::empty()));
        } else {
            assert((pa + pb1).update((pa + pb1).len() - 1, (pa + pb1).last().push(b.last())) =~= pa + pb1.update(
                pb1.len() - 1,
                pb1.last().push(b.last()),
            ));
        }
    }
}

proof fn lemma_strip_all_concat(a: Seq<Seq<char>>, b: Seq<Seq<char>>)
    ensures
        strip_all(a + b) == strip_all(a) + strip_all(b),
    decreases b.len(),
{
    if b.len() == 0 {
        assert(a + b =~= a);
        assert(strip_all(a) + strip_all(b) =~= strip_all(a));
    } else {
        lemma_strip_all_concat(a, b.drop_last());
        assert((a + b).drop_last() =~= a + b.drop_last());
        assert((a + b).last() == b.last());
        assert(strip_all(a) + strip_all(b.drop_last()).push(strip_cr(b.last())) =~= (strip_all(a) + strip_all(
            b.drop_last(),
        )).push(strip_cr(b.last())));
    }
}

/// `str::lines` of a text that ends in a newline, then more text.
pub proof fn lemma_lines_concat(a: Seq<char>, b: Seq<char>)
    requires
        a.len() > 0,
        a.last() == '\n',
    ensures
        lines(a + b) == lines(a) + lines(b),
{
    lemma_split_concat(a, b, '\n');
    lemma_split_nonempty(a.drop_last(), '\n');
    lemma_split_nonempty(b, '\n');
    let pa = split_char(a, '\n');
    let pb = split_char(b, '\n');
    assert(pa == split_char(a.drop_last(), '\n').push(Seq::<char>::empty()));
    let p = pa.drop_last() + pb;
    assert(p.drop_last() =~= pa.drop_last() + pb.drop_last());
    assert(p.last() == pb.last());
    lemma_strip_all_concat(pa.drop_last(), pb.drop_last());
    if pb.last().len() == 0 {
    } else {
        assert(strip_all(pa.drop_last()) + strip_all(pb.drop_last()).push(pb.last()) =~= (strip_all(pa.drop_last())
            + strip_all(pb.drop_last())).push(pb.last()));
    }
}

/// The lines of `x\n` for one-line `x`.
pub proof fn lemma_lines_one(x: Seq<char>)
    requires
        free_of(x, '\n'),
    ensures
        lines(x + "\n"@) == seq![strip_cr(x)],
{
    reveal_strlit("\n");
    let e = Seq::<char>::empty();
    lemma_split_append(e, x, '\n');
    assert(e + x =~= x);
    assert(split_char(e, '\n') == seq![e]);
    assert(split_char(x, '\n') =~= seq![x]);
    let a = x.push('\n');
    assert(a.drop_last() =~= x);
    assert(split_char(a, '\n') =~= seq![x, e]);
    assert(x + "\n"@ =~= a);
    assert(split_char(a, '\n').drop_last() =~= seq![x]);
    assert(seq![x].drop_last() =~= Seq::<Seq<char>>::empty());
    assert(strip_all(Seq::<Seq<char>>::empty()) == Seq::<Seq<char>>::empty());
    assert(strip_all(seq![x]) == strip_all(Seq::<Seq<char>>::empty()).push(strip_cr(x)));
    assert(strip_all(seq![x]) =~= seq![strip_cr(x)]);
}

/// The lines of `x\ny\n` for one-line `x` and `y`.
pub proof fn lemma_lines_two(x: Seq<char>, y: Seq<char>)
    requires
        free_of(x, '\n'),
        free_of(y, '\n'),
    ensures
        lines(x + "\n"@ + y + "\n"@) == seq![strip_cr(x), strip_cr(y)],
{
    reveal_strlit("\n");
    let e = Seq::<char>::empty();
    lemma_split_append(e, x, '\n');
    assert(e + x =~= x);
    assert(split_char(e, '\n') == seq![e]);
    assert(split_char(x, '\n') =~= seq![x]);
    let a = x.push('\n');
    assert(split_char(a, '\n') =~= seq![x, e]) by {
        assert(a.drop_last() =~= x);
    }
    lemma_split_append(a, y, '\n');
    assert(split_char(a + y, '\n') =~= seq![x, y]);
    let b = (a + y).push('\n');
    assert(split_char(b, '\n') =~= seq![x, y, e]) by {
        assert(b.drop_last() =~= a + y);
    }
    assert(x + "\n"@ + y + "\n"@ =~= b);
    assert(split_char(b, '\n').drop_last() =~= seq![x, y]);
    assert(strip_all(seq![x, y]) =~= seq![strip_cr(x), strip_cr(y)]) by {
        assert(seq![x, y].drop_last() =~= seq![x]);
        assert(seq![x].drop_last() =~= Seq::<Seq<char>>::empty());
        assert(strip_all(Seq::<Seq<char>>::empty()) == Seq::<Seq<char>>::empty());
        assert(strip_all(seq![x]) == strip_all(Seq::<Seq<char>>::empty()).push(strip_cr(x)));
        assert(strip_all(seq![x, y]) == strip_all(seq![x]).push(strip_cr(y)));
    }
}


// --- one-line texts ------------------------------------------------------------

proof fn lemma_free_concat(a: Seq<char>, b: Seq<char>, c: char)
    requires
        free_of(a, c),
        free_of(b, c),
    ensures
        free_of(a + b, c),
{
    if (a + b).contains(c) {
        let j = choose|j: int| 0 <= j < (a + b).len() && (a + b)[j] == c;
        if j < a.len() {
            assert(a[j] == c);
        } else {
            assert(b[j - a.len()] == c);
        }
    }
}

proof fn lemma_free_replace_all(s: Seq<char>, p: Seq<char>, r: Seq<char>, c: char)
    requires
        free_of(s, c),
        free_of(r, c),
    ensures
        free_of(replace_all(s, p, r), c),
    decreases s.len(),
{
    if s.len() == 0 || p.len() == 0 {
    } else if starts_with(s, p) {
        let t = s.skip(p.len() as int);
        assert(free_of(t, c)) by {
            if t.contains(c) {
                let j = choose|j: int| 0 <= j < t.len() && t[j] == c;
                assert(s[j + p.len()] == c);
            }
        }
        lemma_free_replace_all(t, p, r, c);
        lemma_free_concat(r, replace_all(t, p, r), c);
    } else {
        let t = s.drop_first();
        assert(free_of(t, c)) by {
            if t.contains(c) {
                let j = choose|j: int| 0 <= j < t.len() && t[j] == c;
                assert(s[j + 1] == c);
            }
        }
        assert(free_of(seq![s[0]], c)) by {
            if seq![s[0]].contains(c) {
                assert(s[0] == c);
            }
        }
        lemma_free_replace_all(t, p, r, c);
        lemma_free_concat(seq![s[0]], replace_all(t, p, r), c);
    }
}

proof fn lemma_escape_free(s: Seq<char>)
    requires
        free_of(s, '\n'),
    ensures
        free_of(lua_escape_spec(s), '\n'),
{
    reveal_strlit("\\\\");
    reveal_strlit("\\\"");
    assert(free_of("\\\\"@, '\n')) by {
        if "\\\\"@.contains('\n') {
            let j = choose|j: int| 0 <= j < "\\\\"@.len() && "\\\\"@[j] == '\n';
        }
    }
    assert(free_of("\\\""@, '\n')) by {
        if "\\\""@.contains('\n') {
            let j = choose|j: int| 0 <= j < "\\\""@.len() && "\\\""@[j] == '\n';
        }
    }
    lemma_free_replace_all(s, "\\"@, "\\\\"@, '\n');
    lemma_free_replace_all(replace_all(s, "\\"@, "\\\\"@), "\""@, "\\\""@, '\n');
}

// --- the two lines of an entry ------------------------------------------------

/// The marker line of an entry.
pub open spec fn marker_line(a: ActionV) -> Seq<char> {
    "-- opb: "@ + a.id + " | "@ + lua_escape_spec(a.description)
}

/// The `hl.bind` line of an entry.
pub open spec fn bind_line(pin_dir: Seq<char>, a: ActionV, c: (u32, Seq<char>)) -> Seq<char> {
    "hl.bind(\""@ + combo_text(c) + "\", hl.dsp.exec_cmd("@ + entry_cmd(pin_dir, a.invocation)
        + "), { description = \""@ + lua_escape_spec(a.description) + "\" })"@
}

/// The marker an entry's first line starts with.
pub open spec fn marker_of(id: Seq<char>) -> Seq<char> {
    "-- opb: "@ + id + " |"@
}

proof fn lemma_entry_shape(pin_dir: Seq<char>, a: ActionV, c: (u32, Seq<char>))
    ensures
        render_entry_spec(pin_dir, a, c) == marker_line(a) + "\n"@ + bind_line(pin_dir, a, c) + "\n"@,
{
    reveal_strlit("\n");
    reveal_strlit("\nhl.bind(\"");
    reveal_strlit("hl.bind(\"");
    reveal_strlit("\" })\n");
    reveal_strlit("\" })");
    assert(render_entry_spec(pin_dir, a, c) =~= marker_line(a) + "\n"@ + bind_line(pin_dir, a, c) + "\n"@);
}

proof fn lemma_trim_end_prefix(s: Seq<char>, p: Seq<char>)
    requires
        starts_with(s, p),
        p.len() > 0,
        !is_ws(p.last()),
    ensures
        starts_with(trim_end(s), p),
    decreases s.len(),
{
    if s.len() > 0 && is_ws(s.last()) {
        if s.len() == p.len() {
            assert(s.take(p.len() as int) =~= s);
            assert(s.last() == p.last());
        }
        assert(s.drop_last().take(p.len() as int) =~= s.take(p.len() as int));
        lemma_trim_end_prefix(s.drop_last(), p);
    }
}

/// The id a marker line names, for an id without ` |`.
proof fn lemma_marker_id(t: Seq<char>, id: Seq<char>)
    requires
        starts_with(t, marker_of(id)),
        !contains(id, " |"@),
    ensures
        marker_id_spec(t) == Some(id),
{
    reveal_strlit("-- opb: ");
    reveal_strlit(" |");
    let m = marker_of(id);
    let h = "-- opb: "@;
    assert(t.take(m.len() as int) == m);
    assert(t.take(h.len() as int) =~= h) by {
        assert forall|i: int| 0 <= i < h.len() implies t.take(h.len() as int)[i] == h[i] by {
            assert(t[i] == m[i]);
        }
    }
    let rest = t.skip(h.len() as int);
    let n = id.len() as int;
    assert(occurs_at(rest, " |"@, n)) by {
        assert forall|i: int| 0 <= i < 2 implies rest.subrange(n, n + 2)[i] == " |"@[i] by {
            assert(rest[n + i] == t[h.len() + n + i]);
            assert(t[h.len() + n + i] == m[h.len() + n + i]);
        }
        assert(rest.subrange(n, n + 2) =~= " |"@);
    }
    assert forall|j: int| 0 <= j < n implies !occurs_at(rest, " |"@, j) by {
        if occurs_at(rest, " |"@, j) {
            if j + 1 < n {
                assert(occurs_at(id, " |"@, j)) by {
                    assert forall|i: int| 0 <= i < 2 implies id.subrange(j, j + 2)[i] == " |"@[i] by {
                        assert(rest.subrange(j, j + 2)[i] == " |"@[i]);
                        assert(t[h.len() + j + i] == m[h.len() + j + i]);
                    }
                    assert(id.subrange(j, j + 2) =~= " |"@);
                }
            } else {
                assert(rest.subrange(j, j + 2)[1] == '|');
                assert(t[h.len() + n] == m[h.len() + n]);
                assert(m[h.len() + n] == ' ');
            }
        }
    }
    lemma_find_spec(rest, " |"@, n);
    assert(rest.take(n) =~= id) by {
        assert forall|i: int| 0 <= i < n implies rest.take(n)[i] == id[i] by {
            assert(t[h.len() + i] == m[h.len() + i]);
        }
    }
}

/// Reading the marker line of an entry: the action id becomes pending.
proof fn lemma_step_marker(st: (Seq<(Seq<char>, (u32, Seq<char>))>, Option<Seq<char>>), a: ActionV, x: Seq<char>)
    requires
        !contains(a.id, " |"@),
        x == marker_line(a) || x == strip_cr(marker_line(a)),
    ensures
        bound_step(st, x) == (st.0, Some(a.id)),
{
    reveal_strlit(" | ");
    reveal_strlit("-- opb: ");
    reveal_strlit(" |");
    let m = marker_of(a.id);
    let l = marker_line(a);
    assert(l.take(m.len() as int) =~= m);
    assert(l.len() > m.len());
    assert(starts_with(x, m)) by {
        assert(x.take(m.len() as int) =~= l.take(m.len() as int));
    }
    assert(x[0] == '-') by {
        assert(x.take(m.len() as int)[0] == m[0]);
    }
    assert(trim_start(x) == x);
    assert(m.last() == '|');
    lemma_trim_end_prefix(x, m);
    assert(trim(x) == trim_end(x));
    lemma_marker_id(trim(x), a.id);
}


proof fn lemma_split_keep_first(s: Seq<char>, t: Seq<char>, c: char)
    requires
        split_char(s, c).len() >= 2,
    ensures
        split_char(s + t, c).len() >= 2,
        split_char(s + t, c)[0] == split_char(s, c)[0],
    decreases t.len(),
{
    if t.len() == 0 {
        assert(s + t =~= s);
    } else {
        lemma_split_keep_first(s, t.drop_last(), c);
        assert((s + t).drop_last() =~= s + t.drop_last());
        assert((s + t).last() == t.last());
    }
}

/// The first piece of `q` + `,…` split at `,` is `q`, for `q` without `,`.
proof fn lemma_split_first(q: Seq<char>, y: Seq<char>, c: char)
    requires
        free_of(q, c),
        y.len() > 0,
        y[0] == c,
    ensures
        split_char(q + y, c)[0] == q,
{
    let e = Seq::<char>::empty();
    lemma_split_append(e, q, c);
    assert(e + q =~= q);
    assert(split_char(e, c) == seq![e]);
    assert(split_char(q, c) =~= seq![q]);
    let a = q.push(c);
    assert(a.drop_last() =~= q);
    assert(split_char(a, c) =~= seq![q, e]);
    lemma_split_keep_first(a, y.drop_first(), c);
    assert(a + y.drop_first() =~= q + y);
}

/// Reading the `hl.bind` line of an entry while its marker is pending: the
/// combo is recorded for the action.
proof fn lemma_step_bind(
    s0: Seq<(Seq<char>, (u32, Seq<char>))>,
    pin_dir: Seq<char>,
    a: ActionV,
    c: (u32, Seq<char>),
)
    requires
        free_of(combo_text(c), ','),
        combo_of(combo_text(c)) == Some(c),
    ensures
        bound_step((s0, Some(a.id)), bind_line(pin_dir, a, c)) == (s0.push((a.id, c)), None::<Seq<char>>),
{
    reveal_strlit("hl.bind(\"");
    reveal_strlit("hl.bind(");
    reveal_strlit("\" })");
    reveal_strlit("\", hl.dsp.exec_cmd(");
    reveal_strlit("-- opb: ");
    reveal_strlit("\"");
    let l = bind_line(pin_dir, a, c);
    let ct = combo_text(c);
    assert(l[0] == 'h');
    assert(l.last() == ')');
    assert(trim_start(l) == l);
    assert(trim_end(l) == l);
    assert(trim(l) == l);
    assert(!starts_with(l, "-- opb: "@)) by {
        if starts_with(l, "-- opb: "@) {
            assert(l.take(8)[0] == "-- opb: "@[0]);
        }
    }
    assert(marker_id_spec(l) is None);
    assert(starts_with(l, "hl.bind("@)) by {
        assert(l.take(8) =~= "hl.bind("@);
    }
    let inner = l.skip(8);
    let q = "\""@ + ct + "\""@;
    let y = inner.skip(q.len() as int);
    assert(inner =~= q + y);
    assert(y[0] == ',');
    assert(free_of(q, ',')) by {
        if q.contains(',') {
            let j = choose|j: int| 0 <= j < q.len() && q[j] == ',';
            if 0 < j < q.len() - 1 {
                assert(ct[j - 1] == ',');
            }
        }
    }
    lemma_split_first(q, y, ',');
    assert(q[0] == '"' && q.last() == '"');
    assert(trim_start(q) == q);
    assert(trim_end(q) == q);
    assert(unquote(q) == Some(ct)) by {
        assert(q.subrange(1, q.len() - 1) =~= ct);
    }
    assert(hl_bind_arg(l) == Some(ct));
}


proof fn lemma_entry_lines_free(pin_dir: Seq<char>, a: ActionV, c: (u32, Seq<char>))
    requires
        free_of(a.id, '\n'),
        free_of(a.description, '\n'),
        free_of(a.invocation, '\n'),
        free_of(pin_dir, '\n'),
        free_of(combo_text(c), '\n'),
    ensures
        free_of(marker_line(a), '\n'),
        free_of(bind_line(pin_dir, a, c), '\n'),
{
    reveal_strlit("-- opb: ");
    reveal_strlit(" | ");
    reveal_strlit("hl.bind(\"");
    reveal_strlit("\", hl.dsp.exec_cmd(");
    reveal_strlit("), { description = \"");
    reveal_strlit("\" })");
    reveal_strlit("export OMARCHY_PATH=\"");
    reveal_strlit("\"; export PATH=\"");
    reveal_strlit("/bin:$PATH\";");
    reveal_strlit("sh -c '");
    reveal_strlit(" exec ");
    reveal_strlit("'");
    reveal_strlit("\"");
    reveal_strlit("[[");
    reveal_strlit("]]");
    let e = lua_escape_spec(a.description);
    lemma_escape_free(a.description);
    lemma_free_concat("-- opb: "@, a.id, '\n');
    lemma_free_concat("-- opb: "@ + a.id, " | "@, '\n');
    lemma_free_concat("-- opb: "@ + a.id + " | "@, e, '\n');
    let ex = crate::env::shell_exports_spec(pin_dir);
    lemma_free_concat("export OMARCHY_PATH=\""@, pin_dir, '\n');
    lemma_free_concat("export OMARCHY_PATH=\""@ + pin_dir, "\"; export PATH=\""@, '\n');
    lemma_free_concat("export OMARCHY_PATH=\""@ + pin_dir + "\"; export PATH=\""@, pin_dir, '\n');
    lemma_free_concat("export OMARCHY_PATH=\""@ + pin_dir + "\"; export PATH=\""@ + pin_dir, "/bin:$PATH\";"@, '\n');
    let inner = ex + " exec "@ + a.invocation;
    lemma_free_concat(ex, " exec "@, '\n');
    lemma_free_concat(ex + " exec "@, a.invocation, '\n');
    let cmd = "sh -c '"@ + inner + "'"@;
    lemma_free_concat("sh -c '"@, inner, '\n');
    lemma_free_concat("sh -c '"@ + inner, "'"@, '\n');
    let q = entry_cmd(pin_dir, a.invocation);
    assert(free_of(q, '\n')) by {
        if contains(cmd, "]]"@) {
            lemma_escape_free(cmd);
            lemma_free_concat("\""@, lua_escape_spec(cmd), '\n');
            lemma_free_concat("\""@ + lua_escape_spec(cmd), "\""@, '\n');
        } else {
            lemma_free_concat("[["@, cmd, '\n');
            lemma_free_concat("[["@ + cmd, "]]"@, '\n');
        }
    }
    let ct = combo_text(c);
    lemma_free_concat("hl.bind(\""@, ct, '\n');
    lemma_free_concat("hl.bind(\""@ + ct, "\", hl.dsp.exec_cmd("@, '\n');
    lemma_free_concat("hl.bind(\""@ + ct + "\", hl.dsp.exec_cmd("@, q, '\n');
    lemma_free_concat("hl.bind(\""@ + ct + "\", hl.dsp.exec_cmd("@ + q, "), { description = \""@, '\n');
    lemma_free_concat("hl.bind(\""@ + ct + "\", hl.dsp.exec_cmd("@ + q + "), { description = \""@, e, '\n');
    lemma_free_concat("hl.bind(\""@ + ct + "\", hl.dsp.exec_cmd("@ + q + "), { description = \""@ + e, "\" })"@, '\n');
}


/// What the reader needs of an entry: every field on one line, an id
/// without ` |`, and a combo text without `,` or a newline that parses back
/// to its combo.
pub open spec fn readable_entry(pin_dir: Seq<char>, a: ActionV, c: (u32, Seq<char>)) -> bool {
    &&& free_of(a.id, '\n')
    &&& free_of(a.description, '\n')
    &&& free_of(a.invocation, '\n')
    &&& free_of(pin_dir, '\n')
    &&& !contains(a.id, " |"@)
    &&& free_of(combo_text(c), '\n')
    &&& free_of(combo_text(c), ',')
    &&& combo_of(combo_text(c)) == Some(c)
}

/// The lines of an entry.
proof fn lemma_entry_lines(pin_dir: Seq<char>, a: ActionV, c: (u32, Seq<char>))
    requires
        readable_entry(pin_dir, a, c),
    ensures
        lines(render_entry_spec(pin_dir, a, c)) == seq![strip_cr(marker_line(a)), bind_line(pin_dir, a, c)],
{
    reveal_strlit("\" })");
    lemma_entry_shape(pin_dir, a, c);
    lemma_entry_lines_free(pin_dir, a, c);
    lemma_lines_two(marker_line(a), bind_line(pin_dir, a, c));
    assert(bind_line(pin_dir, a, c).last() == ')');
}

/// Folding the two lines of an entry after any state records its combo.
proof fn lemma_fold_entry(x: Seq<Seq<char>>, pin_dir: Seq<char>, a: ActionV, c: (u32, Seq<char>))
    requires
        readable_entry(pin_dir, a, c),
    ensures
        bound_fold(x + lines(render_entry_spec(pin_dir, a, c))) == (
            bound_fold(x).0.push((a.id, c)),
            None::<Seq<char>>,
        ),
{
    lemma_entry_lines(pin_dir, a, c);
    let l1 = strip_cr(marker_line(a));
    let l2 = bind_line(pin_dir, a, c);
    let z = x + seq![l1, l2];
    assert(z.drop_last() =~= x.push(l1));
    assert(z.last() == l2);
    assert(x.push(l1).drop_last() =~= x);
    assert(x.push(l1).last() == l1);
    lemma_step_marker(bound_fold(x), a, l1);
    lemma_step_bind(bound_fold(x).0, pin_dir, a, c);
    assert(bound_fold(x.push(l1)) == bound_step(bound_fold(x), l1));
    assert(bound_fold(z) == bound_step(bound_fold(x.push(l1)), l2));
}

/// Appending an entry to keys.lua: the action reads back with its combo.
proof fn lemma_append_reads_back(src: Seq<char>, pin_dir: Seq<char>, a: ActionV, c: (u32, Seq<char>))
    requires
        readable_entry(pin_dir, a, c),
    ensures
        bound_lookup(bound_combos_spec(append_source_spec(src, render_entry_spec(pin_dir, a, c))), a.id) == Some(
            c,
        ),
{
    reveal_strlit("\n");
    let entry = render_entry_spec(pin_dir, a, c);
    let p = if src.len() == 0 {
        KEYS_HEADER@
    } else if src.last() == '\n' {
        src
    } else {
        src.push('\n')
    };
    assert(append_source_spec(src, entry) =~= p + entry);
    assert(p.len() > 0 && p.last() == '\n') by {
        reveal_strlit("-- opb keybinds (user-owned). Managed with `opb keys edit` / `opb keys set`;\n-- hand-edit freely. opb only ever edits its own `-- opb:`-marked entries.\n-- Loaded on `opb up` and at boot via ~/.config/hypr/opb.lua (require(\"opb\")).\n\n");
    }
    lemma_lines_concat(p, entry);
    lemma_fold_entry(lines(p), pin_dir, a, c);
    let es = bound_fold(lines(p)).0.push((a.id, c));
    assert(es.last() == (a.id, c));
}


// --- folding lines ----------------------------------------------------------------

pub type BoundState = (Seq<(Seq<char>, (u32, Seq<char>))>, Option<Seq<char>>);

/// `bound_step` over `ls`, from `st`.
pub open spec fn fold_from(st: BoundState, ls: Seq<Seq<char>>) -> BoundState
    decreases ls.len(),
{
    if ls.len() == 0 {
        st
    } else {
        bound_step(fold_from(st, ls.drop_last()), ls.last())
    }
}

proof fn lemma_fold_is_from(ls: Seq<Seq<char>>)
    ensures
        bound_fold(ls) == fold_from((Seq::empty(), None), ls),
    decreases ls.len(),
{
    if ls.len() > 0 {
        lemma_fold_is_from(ls.drop_last());
    }
}

proof fn lemma_fold_concat(st: BoundState, a: Seq<Seq<char>>, b: Seq<Seq<char>>)
    ensures
        fold_from(st, a + b) == fold_from(fold_from(st, a), b),
    decreases b.len(),
{
    if b.len() == 0 {
        assert(a + b =~= a);
    } else {
        lemma_fold_concat(st, a, b.drop_last());
        assert((a + b).drop_last() =~= a + b.drop_last());
        assert((a + b).last() == b.last());
    }
}

proof fn lemma_trim_drop_ws(l: Seq<char>)
    requires
        l.len() > 0,
        is_ws(l.last()),
    ensures
        trim(l.drop_last()) == trim(l),
    decreases l.len(),
{
    if l.len() == 1 {
        assert(l.drop_last() =~= Seq::<char>::empty());
        assert(l.drop_first() =~= Seq::<char>::empty());
        assert(trim_start(l) == trim_start(l.drop_first()));
    } else if is_ws(l[0]) {
        let l1 = l.drop_first();
        lemma_trim_drop_ws(l1);
        assert(l.drop_last().drop_first() =~= l1.drop_last());
        assert(trim_start(l) == trim_start(l1));
        assert(l.drop_last()[0] == l[0]);
        assert(trim_start(l.drop_last()) == trim_start(l.drop_last().drop_first()));
    } else {
        assert(trim_start(l) == l);
        assert(l.drop_last()[0] == l[0]);
        assert(trim_start(l.drop_last()) == l.drop_last());
    }
}

/// A line and its `\r`-stripped form step alike.
proof fn lemma_step_strip(st: BoundState, l: Seq<char>)
    ensures
        bound_step(st, strip_cr(l)) == bound_step(st, l),
{
    if l.len() > 0 && l.last() == '\r' {
        assert(is_ws('\r'));
        lemma_trim_drop_ws(l);
    }
}

proof fn lemma_fold_strip(st: BoundState, ls: Seq<Seq<char>>)
    ensures
        fold_from(st, strip_all(ls)) == fold_from(st, ls),
    decreases ls.len(),
{
    if ls.len() > 0 {
        lemma_fold_strip(st, ls.drop_last());
        let s1 = strip_all(ls.drop_last());
        assert(strip_all(ls) == s1.push(strip_cr(ls.last())));
        assert(strip_all(ls).drop_last() =~= s1);
        lemma_step_strip(fold_from(st, ls.drop_last()), ls.last());
    }
}

proof fn lemma_step_empty(st: BoundState)
    ensures
        bound_step(st, Seq::<char>::empty()) == st,
{
    let e = Seq::<char>::empty();
    assert(trim_start(e) == e);
    assert(trim_end(e) == e);
    assert(!starts_with(e, "-- opb: "@)) by {
        reveal_strlit("-- opb: ");
    }
    assert(!starts_with(e, "hl.bind("@)) by {
        reveal_strlit("hl.bind(");
    }
    assert(marker_id_spec(e) is None);
}

// --- joining lines back ----------------------------------------------------------

/// Every line is free of `c`.
pub open spec fn all_free(ls: Seq<Seq<char>>, c: char) -> bool {
    forall|i: int| 0 <= i < ls.len() ==> free_of(#[trigger] ls[i], c)
}

proof fn lemma_split_join(ls: Seq<Seq<char>>)
    requires
        ls.len() > 0,
        all_free(ls, '\n'),
    ensures
        split_char(join_lines(ls), '\n') == ls,
    decreases ls.len(),
{
    reveal_strlit("\n");
    let e = Seq::<char>::empty();
    if ls.len() == 1 {
        lemma_split_append(e, ls[0], '\n');
        assert(e + ls[0] =~= ls[0]);
        assert(split_char(e, '\n') == seq![e]);
        assert(split_char(ls[0], '\n') =~= ls);
    } else {
        let init = ls.drop_last();
        assert(all_free(init, '\n')) by {
            assert forall|i: int| 0 <= i < init.len() implies free_of(#[trigger] init[i], '\n') by {
                assert(init[i] == ls[i]);
            }
        }
        lemma_split_join(init);
        let j = join_lines(init);
        let a = j.push('\n');
        assert(a.drop_last() =~= j);
        assert(split_char(a, '\n') == init.push(e));
        assert(free_of(ls.last(), '\n')) by {
            assert(ls[ls.len() - 1] == ls.last());
        }
        lemma_split_append(a, ls.last(), '\n');
        assert(join_lines(ls) =~= a + ls.last());
        assert(init.push(e).update(init.len() as int, e + ls.last()) =~= ls) by {
            assert(e + ls.last() =~= ls.last());
        }
    }
}

/// keys.lua rewritten from lines, read back as lines, folds as the lines do.
proof fn lemma_fold_rejoined(st: BoundState, ls: Seq<Seq<char>>)
    requires
        all_free(ls, '\n'),
    ensures
        fold_from(st, lines(
            if join_lines(ls).len() > 0 && join_lines(ls).last() != '\n' {
                join_lines(ls) + "\n"@
            } else {
                join_lines(ls)
            },
        )) == fold_from(st, ls),
{
    reveal_strlit("\n");
    let e = Seq::<char>::empty();
    let j = join_lines(ls);
    if ls.len() == 0 {
        assert(j == e);
        assert(split_char(e, '\n') == seq![e]);
        assert(lines(e) =~= Seq::<Seq<char>>::empty());
    } else {
        lemma_split_join(ls);
        if j.len() > 0 && j.last() != '\n' {
            let t = j.push('\n');
            assert(j + "\n"@ =~= t);
            assert(t.drop_last() =~= j);
            assert(split_char(t, '\n') == ls.push(e));
            assert(ls.push(e).drop_last() =~= ls);
            assert(lines(t) == strip_all(ls));
            lemma_fold_strip(st, ls);
        } else {
            // the last line is empty: it is dropped, and it steps as a no-op
            assert(ls.last().len() == 0) by {
                if ls.last().len() > 0 {
                    if ls.len() == 1 {
                        if j.len() > 0 {
                            assert(j.last() == ls.last().last());
                            assert(ls[0] == ls.last());
                            assert(ls[0][ls[0].len() - 1] == '\n');
                        }
                    } else {
                        assert(j =~= join_lines(ls.drop_last()) + "\n"@ + ls.last());
                        assert(j.last() == ls.last().last());
                        assert(ls[ls.len() - 1] == ls.last());
                        assert(ls.last()[ls.last().len() - 1] == '\n');
                    }
                }
            }
            assert(lines(j) == strip_all(ls.drop_last()));
            lemma_fold_strip(st, ls.drop_last());
            lemma_step_empty(fold_from(st, ls.drop_last()));
        }
    }
}


proof fn lemma_split_free(s: Seq<char>, c: char)
    ensures
        all_free(split_char(s, c), c),
    decreases s.len(),
{
    if s.len() > 0 {
        lemma_split_free(s.drop_last(), c);
        lemma_split_nonempty(s.drop_last(), c);
        let r = split_char(s.drop_last(), c);
        if s.last() != c {
            let x = r.last().push(s.last());
            assert(free_of(x, c)) by {
                if x.contains(c) {
                    let j = choose|j: int| 0 <= j < x.len() && x[j] == c;
                    assert(r[r.len() - 1] == r.last());
                    assert(r.last()[j] == c);
                }
            }
            assert forall|i: int| 0 <= i < r.len() implies free_of(#[trigger] r.update(r.len() - 1, x)[i], c) by {
                if i < r.len() - 1 {
                    assert(r.update(r.len() - 1, x)[i] == r[i]);
                }
            }
        } else {
            assert forall|i: int| 0 <= i < r.len() + 1 implies free_of(#[trigger] r.push(Seq::<char>::empty())[i], c) by {
                if i < r.len() {
                    assert(r.push(Seq::<char>::empty())[i] == r[i]);
                }
            }
        }
    }
}

proof fn lemma_strip_free(ps: Seq<Seq<char>>, c: char)
    requires
        all_free(ps, c),
    ensures
        all_free(strip_all(ps), c),
        strip_all(ps).len() == ps.len(),
    decreases ps.len(),
{
    if ps.len() > 0 {
        let init = ps.drop_last();
        assert(all_free(init, c)) by {
            assert forall|i: int| 0 <= i < init.len() implies free_of(#[trigger] init[i], c) by {
                assert(init[i] == ps[i]);
            }
        }
        lemma_strip_free(init, c);
        let l = ps.last();
        assert(free_of(l, c)) by {
            assert(ps[ps.len() - 1] == l);
        }
        assert(free_of(strip_cr(l), c)) by {
            if strip_cr(l).contains(c) {
                let j = choose|j: int| 0 <= j < strip_cr(l).len() && strip_cr(l)[j] == c;
                assert(l[j] == c);
            }
        }
        let s1 = strip_all(init);
        assert forall|i: int| 0 <= i < s1.len() + 1 implies free_of(#[trigger] s1.push(strip_cr(l))[i], c) by {
            if i < s1.len() {
                assert(s1.push(strip_cr(l))[i] == s1[i]);
            }
        }
    }
}

proof fn lemma_lines_free(s: Seq<char>)
    ensures
        all_free(lines(s), '\n'),
{
    let p = split_char(s, '\n');
    lemma_split_free(s, '\n');
    lemma_split_nonempty(s, '\n');
    let init = p.drop_last();
    assert(all_free(init, '\n')) by {
        assert forall|i: int| 0 <= i < init.len() implies free_of(#[trigger] init[i], '\n') by {
            assert(init[i] == p[i]);
        }
    }
    lemma_strip_free(init, '\n');
    let f = strip_all(init);
    if p.last().len() > 0 {
        assert(free_of(p.last(), '\n')) by {
            assert(p[p.len() - 1] == p.last());
        }
        assert forall|i: int| 0 <= i < f.len() + 1 implies free_of(#[trigger] f.push(p.last())[i], '\n') by {
            if i < f.len() {
                assert(f.push(p.last())[i] == f[i]);
            }
        }
    }
}

proof fn lemma_free_cat(a: Seq<Seq<char>>, b: Seq<Seq<char>>, c: char)
    requires
        all_free(a, c),
        all_free(b, c),
    ensures
        all_free(a + b, c),
{
    assert forall|i: int| 0 <= i < (a + b).len() implies free_of(#[trigger] (a + b)[i], c) by {
        if i < a.len() {
            assert((a + b)[i] == a[i]);
        } else {
            assert((a + b)[i] == b[i - a.len()]);
        }
    }
}

proof fn lemma_rewrite_free(ls: Seq<Seq<char>>, m: Seq<char>, rep: Seq<Seq<char>>)
    requires
        all_free(ls, '\n'),
        all_free(rep, '\n'),
    ensures
        all_free(rewrite_lines(ls, m, rep), '\n'),
    decreases ls.len(),
{
    if ls.len() > 0 {
        let rest = if starts_with(trim_start(ls[0]), m) {
            if ls.len() > 1 && starts_with(trim_start(ls[1]), "hl.bind("@) {
                ls.skip(2)
            } else {
                ls.skip(1)
            }
        } else {
            ls.skip(1)
        };
        assert(all_free(rest, '\n')) by {
            assert forall|i: int| 0 <= i < rest.len() implies free_of(#[trigger] rest[i], '\n') by {
                if rest == ls.skip(2) {
                    assert(rest[i] == ls[i + 2]);
                } else {
                    assert(rest[i] == ls[i + 1]);
                }
            }
        }
        lemma_rewrite_free(rest, m, rep);
        if starts_with(trim_start(ls[0]), m) {
            lemma_free_cat(rep, rewrite_lines(rest, m, rep), '\n');
        } else {
            assert(all_free(seq![ls[0]], '\n')) by {
                assert forall|i: int| 0 <= i < 1 implies free_of(#[trigger] seq![ls[0]][i], '\n') by {
                    assert(seq![ls[0]][i] == ls[0]);
                }
            }
            lemma_free_cat(seq![ls[0]], rewrite_lines(rest, m, rep), '\n');
        }
    }
}


// --- which lines a rewrite catches ----------------------------------------------

proof fn lemma_first_exists(s: Seq<char>, p: Seq<char>, i: int)
    requires
        occurs_at(s, p, i),
    ensures
        exists|k: int| is_first_occurrence(s, p, k),
    decreases i,
{
    if exists|j: int| 0 <= j < i && occurs_at(s, p, j) {
        let j = choose|j: int| 0 <= j < i && occurs_at(s, p, j);
        lemma_first_exists(s, p, j);
    } else {
        assert(is_first_occurrence(s, p, i));
    }
}

proof fn lemma_trim_end_is_prefix(s: Seq<char>)
    ensures
        trim_end(s).len() <= s.len(),
        s.take(trim_end(s).len() as int) == trim_end(s),
    decreases s.len(),
{
    if s.len() > 0 && is_ws(s.last()) {
        lemma_trim_end_is_prefix(s.drop_last());
        let t = trim_end(s.drop_last());
        assert(s.take(t.len() as int) =~= s.drop_last().take(t.len() as int));
    } else {
        assert(s.take(s.len() as int) =~= s);
    }
}

/// A line whose marker names `id` is one a rewrite of `id` catches.
proof fn lemma_marker_caught(l: Seq<char>, id: Seq<char>)
    requires
        marker_id_spec(trim(l)) == Some(id),
        !contains(id, " |"@),
    ensures
        starts_with(trim_start(l), marker_of(id)),
{
    reveal_strlit("-- opb: ");
    reveal_strlit(" |");
    let t = trim(l);
    let h = "-- opb: "@;
    let rest = t.skip(h.len() as int);
    assert(starts_with(t, h));
    assert(contains(rest, " |"@));
    let i0 = choose|i: int| occurs_at(rest, " |"@, i);
    lemma_first_exists(rest, " |"@, i0);
    let e = choose|i: int| is_first_occurrence(rest, " |"@, i);
    assert(find_spec(rest, " |"@) == Some(e));
    assert(rest.take(e) == id);
    assert(e == id.len());
    let m = marker_of(id);
    assert(t.take(m.len() as int) =~= m) by {
        assert forall|k: int| 0 <= k < m.len() implies t.take(m.len() as int)[k] == m[k] by {
            if k < h.len() {
                assert(t.take(h.len() as int)[k] == h[k]);
            } else if k < h.len() + e {
                assert(rest.take(e)[k - h.len()] == id[k - h.len()]);
            } else {
                assert(rest.subrange(e, e + 2)[k - h.len() - e] == " |"@[k - h.len() - e]);
            }
        }
    }
    lemma_trim_end_is_prefix(trim_start(l));
    assert(trim_start(l).take(m.len() as int) =~= t.take(m.len() as int));
}

// --- folding a rewritten file ----------------------------------------------------

/// Every recorded bind of `id` is `target` (none at all when it is `None`).
pub open spec fn binds_of_are(es: Seq<(Seq<char>, (u32, Seq<char>))>, id: Seq<char>, target: Option<(u32, Seq<char>)>) -> bool {
    forall|i: int| 0 <= i < es.len() && (#[trigger] es[i]).0 == id ==> Some(es[i].1) == target
}

/// Some bind of `id` is recorded.
pub open spec fn has_bind(es: Seq<(Seq<char>, (u32, Seq<char>))>, id: Seq<char>) -> bool {
    exists|i: int| 0 <= i < es.len() && (#[trigger] es[i]).0 == id
}

/// Some line is caught by a rewrite of `id`.
pub open spec fn caught_any(ls: Seq<Seq<char>>, id: Seq<char>) -> bool {
    exists|i: int| 0 <= i < ls.len() && starts_with(trim_start(#[trigger] ls[i]), marker_of(id))
}

proof fn lemma_lookup(es: Seq<(Seq<char>, (u32, Seq<char>))>, id: Seq<char>, target: Option<(u32, Seq<char>)>)
    requires
        binds_of_are(es, id, target),
        target is Some ==> has_bind(es, id),
    ensures
        bound_lookup(es, id) == target,
    decreases es.len(),
{
    if es.len() == 0 {
    } else if es.last().0 == id {
        assert(es[es.len() - 1] == es.last());
    } else {
        let init = es.drop_last();
        assert(binds_of_are(init, id, target)) by {
            assert forall|i: int| 0 <= i < init.len() && (#[trigger] init[i]).0 == id implies Some(init[i].1)
                == target by {
                assert(init[i] == es[i]);
            }
        }
        if target is Some {
            let k = choose|i: int| 0 <= i < es.len() && (#[trigger] es[i]).0 == id;
            assert(k != es.len() - 1);
            assert(init[k] == es[k]);
        }
        lemma_lookup(init, id, target);
    }
}

/// Stepping a line a rewrite of `id` did not catch keeps `id` off the
/// pending marker and adds no bind of `id`.
proof fn lemma_step_other(st: BoundState, l: Seq<char>, id: Seq<char>, target: Option<(u32, Seq<char>)>)
    requires
        !contains(id, " |"@),
        !starts_with(trim_start(l), marker_of(id)),
        st.1 != Some(id),
        binds_of_are(st.0, id, target),
    ensures
        bound_step(st, l).1 != Some(id),
        binds_of_are(bound_step(st, l).0, id, target),
        has_bind(st.0, id) ==> has_bind(bound_step(st, l).0, id),
{
    if marker_id_spec(trim(l)) == Some(id) {
        lemma_marker_caught(l, id);
    }
    let r = bound_step(st, l);
    assert(r.0 == st.0 || (r.0 == st.0.push(r.0.last()) && st.1 is Some && r.0.last().0 == st.1->0));
    if r.0 != st.0 {
        assert forall|i: int| 0 <= i < r.0.len() && (#[trigger] r.0[i]).0 == id implies Some(r.0[i].1) == target by {
            assert(i < st.0.len());
            assert(r.0[i] == st.0[i]);
        }
        if has_bind(st.0, id) {
            let k = choose|i: int| 0 <= i < st.0.len() && (#[trigger] st.0[i]).0 == id;
            assert(r.0[k] == st.0[k]);
        }
    }
}


/// Folding `rep` from a state that keeps `id` off the pending marker and
/// records no bind of `id` other than `target` keeps both, and records
/// `target` when it is one.
pub open spec fn rep_ok(rep: Seq<Seq<char>>, id: Seq<char>, target: Option<(u32, Seq<char>)>) -> bool {
    forall|s: BoundState|
        s.1 != Some(id) && binds_of_are(s.0, id, target) ==> {
            let r = #[trigger] fold_from(s, rep);
            &&& r.1 != Some(id)
            &&& binds_of_are(r.0, id, target)
            &&& target is Some ==> has_bind(r.0, id)
        }
}

proof fn lemma_fold_rewrite(
    st: BoundState,
    ls: Seq<Seq<char>>,
    id: Seq<char>,
    rep: Seq<Seq<char>>,
    target: Option<(u32, Seq<char>)>,
)
    requires
        !contains(id, " |"@),
        st.1 != Some(id),
        binds_of_are(st.0, id, target),
        rep_ok(rep, id, target),
    ensures
        fold_from(st, rewrite_lines(ls, marker_of(id), rep)).1 != Some(id),
        binds_of_are(fold_from(st, rewrite_lines(ls, marker_of(id), rep)).0, id, target),
        target is Some && (has_bind(st.0, id) || caught_any(ls, id)) ==> has_bind(
            fold_from(st, rewrite_lines(ls, marker_of(id), rep)).0,
            id,
        ),
    decreases ls.len(),
{
    let m = marker_of(id);
    if ls.len() == 0 {
    } else if starts_with(trim_start(ls[0]), m) {
        let rest = if ls.len() > 1 && starts_with(trim_start(ls[1]), "hl.bind("@) {
            ls.skip(2)
        } else {
            ls.skip(1)
        };
        assert(rewrite_lines(ls, m, rep) == rep + rewrite_lines(rest, m, rep));
        lemma_fold_concat(st, rep, rewrite_lines(rest, m, rep));
        let s1 = fold_from(st, rep);
        lemma_fold_rewrite(s1, rest, id, rep, target);
    } else {
        let x = ls[0];
        assert(rewrite_lines(ls, m, rep) == seq![x] + rewrite_lines(ls.skip(1), m, rep));
        lemma_fold_concat(st, seq![x], rewrite_lines(ls.skip(1), m, rep));
        assert(seq![x].drop_last() =~= Seq::<Seq<char>>::empty());
        assert(seq![x].last() == x);
        assert(fold_from(st, Seq::<Seq<char>>::empty()) == st);
        assert(fold_from(st, seq![x]) == bound_step(st, x));
        lemma_step_other(st, x, id, target);
        let s1 = bound_step(st, x);
        if caught_any(ls, id) {
            let k = choose|i: int| 0 <= i < ls.len() && starts_with(trim_start(#[trigger] ls[i]), m);
            assert(k != 0);
            assert(ls.skip(1)[k - 1] == ls[k]);
        }
        lemma_fold_rewrite(s1, ls.skip(1), id, rep, target);
    }
}

/// The lines of a rewritten keys.lua fold as the rewritten lines do.
proof fn lemma_fold_block(src: Seq<char>, id: Seq<char>, replacement: Seq<char>)
    ensures
        bound_combos_spec(rewrite_action_block_spec(src, id, replacement)) == fold_from(
            (Seq::empty(), None),
            rewrite_lines(
                lines(src),
                marker_of(id),
                if replacement.len() == 0 {
                    Seq::empty()
                } else {
                    lines(replacement)
                },
            ),
        ).0,
{
    let rep = if replacement.len() == 0 {
        Seq::<Seq<char>>::empty()
    } else {
        lines(replacement)
    };
    let r = rewrite_lines(lines(src), marker_of(id), rep);
    lemma_lines_free(src);
    lemma_lines_free(replacement);
    assert(all_free(rep, '\n'));
    lemma_rewrite_free(lines(src), marker_of(id), rep);
    lemma_fold_rejoined((Seq::empty(), None), r);
    lemma_fold_is_from(lines(rewrite_action_block_spec(src, id, replacement)));
}

/// A written or rewritten entry's fields, each on one line, with an id
/// without ` |` and a combo text without `,` or a newline.
pub open spec fn one_line_entry(pin_dir: Seq<char>, a: ActionV, c: (u32, Seq<char>)) -> bool {
    &&& free_of(a.id, '\n')
    &&& free_of(a.description, '\n')
    &&& free_of(a.invocation, '\n')
    &&& free_of(pin_dir, '\n')
    &&& !contains(a.id, " |"@)
    &&& free_of(combo_text(c), '\n')
    &&& free_of(combo_text(c), ',')
}

/// When keys.lua already mentions an action, its marker begins a line.
pub open spec fn marker_begins_line(src: Seq<char>, id: Seq<char>) -> bool {
    already_bound_spec(src, id) ==> caught_any(lines(src), id)
}

/// What `opb keys set` writes reads back: in the keys.lua that binding an
/// action to a parsed combo produces (appended, or rewritten in place when
/// the action is already bound), the bind state gives that action exactly
/// the combo that was set.
pub proof fn law_keys_set_reads_back(src: Seq<char>, pin_dir: Seq<char>, a: ActionV, input: Seq<char>)
    requires
        combo_of(input) is Some,
        one_line_entry(pin_dir, a, combo_of(input)->0),
        marker_begins_line(src, a.id),
    ensures
        bound_lookup(bound_combos_spec(next_source_spec(src, pin_dir, a, combo_of(input)->0)), a.id) == combo_of(
            input,
        ),
{
    let c = combo_of(input)->0;
    law_combo_text_reads_back(input);
    assert(readable_entry(pin_dir, a, c));
    let entry = render_entry_spec(pin_dir, a, c);
    if !already_bound_spec(src, a.id) {
        lemma_append_reads_back(src, pin_dir, a, c);
    } else {
        lemma_entry_lines(pin_dir, a, c);
        assert(entry.len() > 0) by {
            reveal_strlit("-- opb: ");
        }
        let rep = lines(entry);
        let l1 = strip_cr(marker_line(a));
        let l2 = bind_line(pin_dir, a, c);
        assert(rep_ok(rep, a.id, Some(c))) by {
            assert forall|s: BoundState| s.1 != Some(a.id) && binds_of_are(s.0, a.id, Some(c)) implies {
                let r = #[trigger] fold_from(s, rep);
                &&& r.1 != Some(a.id)
                &&& binds_of_are(r.0, a.id, Some(c))
                &&& has_bind(r.0, a.id)
            } by {
                assert(rep.drop_last() =~= seq![l1]);
                assert(seq![l1].drop_last() =~= Seq::<Seq<char>>::empty());
                assert(seq![l1].last() == l1);
                assert(fold_from(s, Seq::<Seq<char>>::empty()) == s);
                lemma_step_marker(s, a, l1);
                lemma_step_bind(s.0, pin_dir, a, c);
                assert(fold_from(s, seq![l1]) == bound_step(s, l1));
                let r = fold_from(s, rep);
                assert(r == (s.0.push((a.id, c)), None::<Seq<char>>));
                assert(r.0[s.0.len() as int] == (a.id, c));
                assert forall|i: int| 0 <= i < r.0.len() && (#[trigger] r.0[i]).0 == a.id implies Some(r.0[i].1)
                    == Some(c) by {
                    if i < s.0.len() {
                        assert(r.0[i] == s.0[i]);
                    }
                }
            }
        }
        lemma_fold_block(src, a.id, entry);
        lemma_fold_rewrite((Seq::empty(), None), lines(src), a.id, rep, Some(c));
        lemma_lookup(
            fold_from((Seq::empty(), None), rewrite_lines(lines(src), marker_of(a.id), rep)).0,
            a.id,
            Some(c),
        );
    }
}

/// What unbinding writes reads back: in the keys.lua with an action's
/// blocks removed, the action is unbound.
pub proof fn law_keys_unbind_reads_back(src: Seq<char>, id: Seq<char>)
    requires
        !contains(id, " |"@),
    ensures
        bound_lookup(bound_combos_spec(rewrite_action_block_spec(src, id, Seq::empty())), id) is None,
{
    let rep = Seq::<Seq<char>>::empty();
    assert(rep_ok(rep, id, None)) by {
        assert forall|s: BoundState| s.1 != Some(id) && binds_of_are(s.0, id, None) implies {
            let r = #[trigger] fold_from(s, rep);
            &&& r.1 != Some(id)
            &&& binds_of_are(r.0, id, None)
        } by {
        }
    }
    lemma_fold_block(src, id, Seq::empty());
    lemma_fold_rewrite((Seq::empty(), None), lines(src), id, rep, None);
    lemma_lookup(fold_from((Seq::empty(), None), rewrite_lines(lines(src), marker_of(id), rep)).0, id, None);
}


// --- a set binds the action once ------------------------------------------------------

/// How many binds of `id` are recorded.
pub open spec fn bind_count(es: Seq<(Seq<char>, (u32, Seq<char>))>, id: Seq<char>) -> nat
    decreases es.len(),
{
    if es.len() == 0 {
        0
    } else {
        bind_count(es.drop_last(), id) + if es.last().0 == id {
            1nat
        } else {
            0nat
        }
    }
}

/// How many lines a rewrite of `id` catches.
pub open spec fn caught_count(ls: Seq<Seq<char>>, id: Seq<char>) -> nat
    decreases ls.len(),
{
    if ls.len() == 0 {
        0
    } else {
        (if starts_with(trim_start(ls[0]), marker_of(id)) {
            1nat
        } else {
            0nat
        }) + caught_count(ls.skip(1), id)
    }
}

proof fn lemma_step_count(st: BoundState, l: Seq<char>, id: Seq<char>)
    requires
        !contains(id, " |"@),
        !starts_with(trim_start(l), marker_of(id)),
        st.1 != Some(id),
    ensures
        bound_step(st, l).1 != Some(id),
        bind_count(bound_step(st, l).0, id) == bind_count(st.0, id),
{
    if marker_id_spec(trim(l)) == Some(id) {
        lemma_marker_caught(l, id);
    }
    let r = bound_step(st, l);
    if r.0 != st.0 {
        assert(r.0.drop_last() == st.0);
    }
}

proof fn lemma_fold_count(
    st: BoundState,
    ls: Seq<Seq<char>>,
    pin_dir: Seq<char>,
    a: ActionV,
    c: (u32, Seq<char>),
)
    requires
        readable_entry(pin_dir, a, c),
        st.1 != Some(a.id),
    ensures
        fold_from(st, rewrite_lines(ls, marker_of(a.id), lines(render_entry_spec(pin_dir, a, c)))).1 != Some(a.id),
        bind_count(
            fold_from(st, rewrite_lines(ls, marker_of(a.id), lines(render_entry_spec(pin_dir, a, c)))).0,
            a.id,
        ) == bind_count(st.0, a.id) + caught_count(ls, a.id),
    decreases ls.len(),
{
    let m = marker_of(a.id);
    let rep = lines(render_entry_spec(pin_dir, a, c));
    lemma_entry_lines(pin_dir, a, c);
    if ls.len() == 0 {
    } else if starts_with(trim_start(ls[0]), m) {
        let two = ls.len() > 1 && starts_with(trim_start(ls[1]), "hl.bind("@);
        let rest = if two {
            ls.skip(2)
        } else {
            ls.skip(1)
        };
        assert(rewrite_lines(ls, m, rep) == rep + rewrite_lines(rest, m, rep));
        lemma_fold_concat(st, rep, rewrite_lines(rest, m, rep));
        let l1 = strip_cr(marker_line(a));
        assert(rep.drop_last() =~= seq![l1]);
        assert(seq![l1].drop_last() =~= Seq::<Seq<char>>::empty());
        assert(seq![l1].last() == l1);
        assert(fold_from(st, Seq::<Seq<char>>::empty()) == st);
        lemma_step_marker(st, a, l1);
        lemma_step_bind(st.0, pin_dir, a, c);
        assert(fold_from(st, seq![l1]) == bound_step(st, l1));
        let s1 = fold_from(st, rep);
        assert(s1 == (st.0.push((a.id, c)), None::<Seq<char>>));
        assert(s1.0.drop_last() == st.0);
        lemma_fold_count(s1, rest, pin_dir, a, c);
        if two {
            reveal_strlit("hl.bind(");
            reveal_strlit("-- opb: ");
            assert(!starts_with(trim_start(ls[1]), m)) by {
                if starts_with(trim_start(ls[1]), m) {
                    assert(trim_start(ls[1]).take(8)[0] == m[0]);
                    assert(trim_start(ls[1]).take(8)[0] == "hl.bind("@[0]);
                }
            }
            assert(ls.skip(1).skip(1) =~= ls.skip(2));
            assert(ls.skip(1)[0] == ls[1]);
            assert(caught_count(ls.skip(1), a.id) == caught_count(ls.skip(2), a.id));
        }
    } else {
        let x = ls[0];
        assert(rewrite_lines(ls, m, rep) == seq![x] + rewrite_lines(ls.skip(1), m, rep));
        lemma_fold_concat(st, seq![x], rewrite_lines(ls.skip(1), m, rep));
        assert(seq![x].drop_last() =~= Seq::<Seq<char>>::empty());
        assert(seq![x].last() == x);
        assert(fold_from(st, Seq::<Seq<char>>::empty()) == st);
        assert(fold_from(st, seq![x]) == bound_step(st, x));
        lemma_step_count(st, x, a.id);
        lemma_fold_count(bound_step(st, x), ls.skip(1), pin_dir, a, c);
    }
}

/// Lines no rewrite catches fold as a rewrite leaves them.
proof fn lemma_rewrite_none(ls: Seq<Seq<char>>, m: Seq<char>, rep: Seq<Seq<char>>)
    requires
        forall|i: int| 0 <= i < ls.len() ==> !starts_with(trim_start(#[trigger] ls[i]), m),
    ensures
        rewrite_lines(ls, m, rep) == ls,
    decreases ls.len(),
{
    if ls.len() > 0 {
        let t = ls.skip(1);
        assert forall|i: int| 0 <= i < t.len() implies !starts_with(trim_start(#[trigger] t[i]), m) by {
            assert(t[i] == ls[i + 1]);
        }
        lemma_rewrite_none(t, m, rep);
        assert(!starts_with(trim_start(ls[0]), m));
        assert(seq![ls[0]] + t =~= ls);
    }
}

proof fn lemma_caught_none(ls: Seq<Seq<char>>, id: Seq<char>)
    requires
        forall|i: int| 0 <= i < ls.len() ==> !starts_with(trim_start(#[trigger] ls[i]), marker_of(id)),
    ensures
        caught_count(ls, id) == 0,
    decreases ls.len(),
{
    if ls.len() > 0 {
        let t = ls.skip(1);
        assert forall|i: int| 0 <= i < t.len() implies !starts_with(trim_start(#[trigger] t[i]), marker_of(id)) by {
            assert(t[i] == ls[i + 1]);
        }
        lemma_caught_none(t, id);
    }
}

proof fn lemma_trim_start_suffix(l: Seq<char>)
    ensures
        trim_start(l).len() <= l.len(),
        trim_start(l) == l.skip(l.len() - trim_start(l).len()),
    decreases l.len(),
{
    if l.len() > 0 && is_ws(l[0]) {
        lemma_trim_start_suffix(l.drop_first());
        let t = trim_start(l.drop_first());
        assert(l.drop_first().skip(l.drop_first().len() - t.len()) =~= l.skip(l.len() - t.len()));
    } else {
        assert(l.skip(0) =~= l);
    }
}

/// `t` occurs somewhere in `s`.
pub open spec fn occurs_in(s: Seq<char>, t: Seq<char>) -> bool {
    exists|o: int| occurs_at(s, t, o)
}

/// Every piece of a split occurs in the text, the last one as its suffix.
proof fn lemma_split_occurs(s: Seq<char>, c: char)
    ensures
        forall|i: int| 0 <= i < split_char(s, c).len() ==> occurs_in(s, #[trigger] split_char(s, c)[i]),
        split_char(s, c).last().len() <= s.len(),
        s.skip(s.len() - split_char(s, c).last().len()) == split_char(s, c).last(),
    decreases s.len(),
{
    lemma_split_nonempty(s, c);
    if s.len() == 0 {
        assert(split_char(s, c) == seq![Seq::<char>::empty()]);
        assert(occurs_at(s, Seq::<char>::empty(), 0)) by {
            assert(s.subrange(0, 0) =~= Seq::<char>::empty());
        }
        assert forall|i: int| 0 <= i < split_char(s, c).len() implies occurs_in(s, #[trigger] split_char(s, c)[i]) by {
            assert(split_char(s, c)[i] == Seq::<char>::empty());
            assert(occurs_at(s, split_char(s, c)[i], 0));
        }
        assert(s.skip(0) =~= Seq::<char>::empty());
    } else {
        let s1 = s.drop_last();
        lemma_split_occurs(s1, c);
        lemma_split_nonempty(s1, c);
        let r = split_char(s1, c);
        let p = split_char(s, c);
        assert forall|i: int| 0 <= i < split_char(s, c).len() implies occurs_in(s, #[trigger] split_char(s, c)[i]) by {
            if i < r.len() && !(s.last() != c && i == r.len() - 1) {
                assert(p[i] == r[i]);
                assert(occurs_in(s1, r[i]));
                let o = choose|o: int| occurs_at(s1, r[i], o);
                assert(s.subrange(o, o + r[i].len()) =~= s1.subrange(o, o + r[i].len()));
                assert(occurs_at(s, p[i], o));
            } else if s.last() == c {
                assert(p[i] == Seq::<char>::empty());
                assert(s.subrange(0, 0) =~= Seq::<char>::empty());
                assert(occurs_at(s, p[i], 0));
            } else {
                let lst = r.last();
                assert(p[i] == lst.push(s.last()));
                let o = s1.len() - lst.len();
                assert(s.subrange(o, o + lst.len() + 1) =~= lst.push(s.last())) by {
                    assert forall|k: int| 0 <= k < lst.len() + 1 implies s.subrange(o, o + lst.len() + 1)[k]
                        == lst.push(s.last())[k] by {
                        if k < lst.len() {
                            assert(s1.skip(o)[k] == lst[k]);
                        }
                    }
                }
                assert(occurs_at(s, p[i], o));
            }
        }
        if s.last() == c {
            assert(p.last() == Seq::<char>::empty());
            assert(s.skip(s.len() as int) =~= Seq::<char>::empty());
        } else {
            let lst = r.last();
            assert(p.last() == lst.push(s.last()));
            assert(s.skip(s.len() - (lst.len() + 1)) =~= lst.push(s.last())) by {
                let o = s1.len() - lst.len();
                assert forall|k: int| 0 <= k < lst.len() + 1 implies s.skip(s.len() - (lst.len() + 1))[k]
                    == lst.push(s.last())[k] by {
                    if k < lst.len() {
                        assert(s1.skip(o)[k] == lst[k]);
                    }
                }
            }
        }
    }
}

/// A line that begins with the marker (after leading whitespace) puts the
/// marker in the text.
proof fn lemma_caught_in_text(src: Seq<char>, id: Seq<char>, i: int)
    requires
        0 <= i < lines(src).len(),
        starts_with(trim_start(lines(src)[i]), marker_of(id)),
    ensures
        contains(src, marker_of(id)),
{
    let m = marker_of(id);
    let p = split_char(src, '\n');
    lemma_split_nonempty(src, '\n');
    lemma_split_occurs(src, '\n');
    let init = p.drop_last();
    let l = lines(src)[i];
    // the line is a prefix of its piece
    let piece = if i < init.len() {
        init[i]
    } else {
        p.last()
    };
    assert(piece.take(l.len() as int) == l && l.len() <= piece.len()) by {
        if i < init.len() {
            lemma_strip_all_index(init, i);
            assert(l == strip_cr(init[i]));
            assert(init[i].take(l.len() as int) =~= l);
        } else {
            lemma_strip_all_len(init);
            assert(l == p.last());
            assert(p.last().take(l.len() as int) =~= l);
        }
    }
    assert(occurs_in(src, piece)) by {
        if i < init.len() {
            assert(init[i] == p[i]);
        } else {
            assert(p.last() == p[p.len() - 1]);
        }
    }
    let o = choose|o: int| occurs_at(src, piece, o);
    lemma_trim_start_suffix(l);
    let k = l.len() - trim_start(l).len();
    assert(occurs_at(src, m, o + k)) by {
        assert forall|j: int| 0 <= j < m.len() implies src.subrange(o + k, o + k + m.len())[j] == m[j] by {
            assert(trim_start(l).take(m.len() as int)[j] == m[j]);
            assert(trim_start(l)[j] == l[k + j]);
            assert(l[k + j] == piece[k + j]);
            assert(src.subrange(o, o + piece.len())[k + j] == piece[k + j]);
        }
        assert(src.subrange(o + k, o + k + m.len()) =~= m);
    }
}

proof fn lemma_strip_all_len(ps: Seq<Seq<char>>)
    ensures
        strip_all(ps).len() == ps.len(),
    decreases ps.len(),
{
    if ps.len() > 0 {
        lemma_strip_all_len(ps.drop_last());
    }
}

proof fn lemma_strip_all_index(ps: Seq<Seq<char>>, i: int)
    requires
        0 <= i < ps.len(),
    ensures
        strip_all(ps).len() == ps.len(),
        strip_all(ps)[i] == strip_cr(ps[i]),
    decreases ps.len(),
{
    lemma_strip_all_len(ps);
    lemma_strip_all_len(ps.drop_last());
    if i < ps.len() - 1 {
        lemma_strip_all_index(ps.drop_last(), i);
    }
}

/// Setting an action binds it once: when keys.lua holds at most one block
/// of the action, the file the set writes records exactly one bind of it.
pub proof fn law_keys_set_binds_once(src: Seq<char>, pin_dir: Seq<char>, a: ActionV, input: Seq<char>)
    requires
        combo_of(input) is Some,
        one_line_entry(pin_dir, a, combo_of(input)->0),
        marker_begins_line(src, a.id),
        caught_count(lines(src), a.id) <= 1,
    ensures
        bind_count(bound_combos_spec(next_source_spec(src, pin_dir, a, combo_of(input)->0)), a.id) == 1,
{
    reveal_strlit("\n");
    let c = combo_of(input)->0;
    law_combo_text_reads_back(input);
    assert(readable_entry(pin_dir, a, c));
    let entry = render_entry_spec(pin_dir, a, c);
    let rep = lines(entry);
    let init: BoundState = (Seq::empty(), None);
    if already_bound_spec(src, a.id) {
        assert(entry.len() > 0) by {
            reveal_strlit("-- opb: ");
        }
        lemma_fold_block(src, a.id, entry);
        lemma_fold_count(init, lines(src), pin_dir, a, c);
        let k = choose|i: int| 0 <= i < lines(src).len() && starts_with(trim_start(#[trigger] lines(src)[i]), marker_of(a.id));
        lemma_caught_positive(lines(src), a.id, k);
    } else {
        let p = if src.len() == 0 {
            KEYS_HEADER@
        } else if src.last() == '\n' {
            src
        } else {
            src.push('\n')
        };
        assert(append_source_spec(src, entry) =~= p + entry);
        assert(p.len() > 0 && p.last() == '\n') by {
            reveal_strlit("-- opb keybinds (user-owned). Managed with `opb keys edit` / `opb keys set`;\n-- hand-edit freely. opb only ever edits its own `-- opb:`-marked entries.\n-- Loaded on `opb up` and at boot via ~/.config/hypr/opb.lua (require(\"opb\")).\n\n");
        }
        lemma_lines_concat(p, entry);
        // nothing in the prefix names the action
        if src.len() == 0 {
            lemma_header_uncaught(a.id);
        } else {
            lemma_prefix_free(src, p, a.id);
            assert forall|i: int| 0 <= i < lines(p).len() implies !starts_with(
                trim_start(#[trigger] lines(p)[i]),
                marker_of(a.id),
            ) by {
                if starts_with(trim_start(lines(p)[i]), marker_of(a.id)) {
                    lemma_caught_in_text(p, a.id, i);
                }
            }
        }
        lemma_rewrite_none(lines(p), marker_of(a.id), rep);
        lemma_caught_none(lines(p), a.id);
        lemma_fold_count(init, lines(p), pin_dir, a, c);
        lemma_fold_is_from(lines(p));
        lemma_fold_entry(lines(p), pin_dir, a, c);
        let es = bound_fold(lines(p)).0;
        assert(bind_count(es, a.id) == 0);
        assert(bound_fold(lines(p) + rep).0 == es.push((a.id, c)));
        assert(es.push((a.id, c)).drop_last() == es);
    }
}

/// The header's lines, none of them an opb entry.
proof fn lemma_header_lines()
    ensures
        lines(KEYS_HEADER@) == seq!["-- opb keybinds (user-owned). Managed with `opb keys edit` / `opb keys set`;"@, "-- hand-edit freely. opb only ever edits its own `-- opb:`-marked entries."@, "-- Loaded on `opb up` and at boot via ~/.config/hypr/opb.lua (require(\"opb\"))."@, Seq::<char>::empty()],
{
    reveal_strlit("-- opb keybinds (user-owned). Managed with `opb keys edit` / `opb keys set`;\n-- hand-edit freely. opb only ever edits its own `-- opb:`-marked entries.\n-- Loaded on `opb up` and at boot via ~/.config/hypr/opb.lua (require(\"opb\")).\n\n");
    reveal_strlit("-- opb keybinds (user-owned). Managed with `opb keys edit` / `opb keys set`;");
    reveal_strlit("-- hand-edit freely. opb only ever edits its own `-- opb:`-marked entries.");
    reveal_strlit("-- Loaded on `opb up` and at boot via ~/.config/hypr/opb.lua (require(\"opb\")).");
    reveal_strlit("\n");
    let a = "-- opb keybinds (user-owned). Managed with `opb keys edit` / `opb keys set`;"@;
    let b = "-- hand-edit freely. opb only ever edits its own `-- opb:`-marked entries."@;
    let c = "-- Loaded on `opb up` and at boot via ~/.config/hypr/opb.lua (require(\"opb\"))."@;
    let e = Seq::<char>::empty();
    assert(KEYS_HEADER@ =~= (a + "\n"@) + ((b + "\n"@) + ((c + "\n"@) + (e + "\n"@))));
    assert(free_of(a, '\n'));
    assert(free_of(b, '\n'));
    assert(free_of(c, '\n'));
    assert(free_of(e, '\n'));
    lemma_lines_one(a);
    lemma_lines_one(b);
    lemma_lines_one(c);
    lemma_lines_one(e);
    assert(e + "\n"@ =~= "\n"@);
    lemma_lines_concat(c + "\n"@, e + "\n"@);
    lemma_lines_concat(b + "\n"@, (c + "\n"@) + (e + "\n"@));
    lemma_lines_concat(a + "\n"@, (b + "\n"@) + ((c + "\n"@) + (e + "\n"@)));
    assert(strip_cr(a) == a);
    assert(strip_cr(b) == b);
    assert(strip_cr(c) == c);
    assert(strip_cr(e) == e);
}

proof fn lemma_header_uncaught(id: Seq<char>)
    ensures
        forall|i: int| 0 <= i < lines(KEYS_HEADER@).len() ==> !starts_with(trim_start(#[trigger] lines(KEYS_HEADER@)[i]), marker_of(id)),
{
    lemma_header_lines();
    reveal_strlit("-- opb keybinds (user-owned). Managed with `opb keys edit` / `opb keys set`;");
    reveal_strlit("-- hand-edit freely. opb only ever edits its own `-- opb:`-marked entries.");
    reveal_strlit("-- Loaded on `opb up` and at boot via ~/.config/hypr/opb.lua (require(\"opb\")).");
    reveal_strlit("-- opb: ");
    reveal_strlit(" |");
    let m = marker_of(id);
    assert(m[6] == ':');
    assert(m[3] == 'o');
    assert forall|i: int| 0 <= i < lines(KEYS_HEADER@).len() implies !starts_with(trim_start(#[trigger] lines(KEYS_HEADER@)[i]), m) by {
        let l = lines(KEYS_HEADER@)[i];
        if i < 3 {
            assert(l[0] == '-');
            assert(trim_start(l) == l);
            if starts_with(l, m) {
                assert(l.take(m.len() as int)[6] == m[6]);
                assert(l.take(m.len() as int)[3] == m[3]);
            }
        } else {
            assert(l == Seq::<char>::empty());
            assert(trim_start(l) == l);
        }
    }
}

proof fn lemma_caught_positive(ls: Seq<Seq<char>>, id: Seq<char>, k: int)
    requires
        0 <= k < ls.len(),
        starts_with(trim_start(ls[k]), marker_of(id)),
    ensures
        caught_count(ls, id) >= 1,
    decreases k,
{
    if k > 0 {
        assert(ls.skip(1)[k - 1] == ls[k]);
        lemma_caught_positive(ls.skip(1), id, k - 1);
    }
}

/// The text an append writes after does not hold the marker when keys.lua
/// does not.
proof fn lemma_prefix_free(src: Seq<char>, p: Seq<char>, id: Seq<char>)
    requires
        !already_bound_spec(src, id),
        src.len() > 0,
        p == (if src.last() == '\n' {
            src
        } else {
            src.push('\n')
        }),
    ensures
        !contains(p, marker_of(id)),
{
    reveal_strlit("-- opb: ");
    reveal_strlit(" |");
    let m = marker_of(id);
    if !contains(p, m) {
        return;
    }
    let o = choose|o: int| occurs_at(p, m, o);
    if src.len() == 0 {
    } else if src.last() == '\n' {
    } else {
        // the marker ends in `|`, so it cannot use the added newline
        assert(o + m.len() <= src.len()) by {
            if o + m.len() > src.len() {
                assert(p.subrange(o, o + m.len())[m.len() - 1] == m[m.len() - 1]);
                assert(p[src.len() as int] == '\n');
            }
        }
        assert(src.subrange(o, o + m.len()) =~= p.subrange(o, o + m.len()));
        assert(occurs_at(src, m, o));
    }
}

} // verus!
