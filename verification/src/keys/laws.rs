//! The combo text opb writes into keys.lua reads back as the same combo.
use vstd::prelude::*;

use crate::keys::{
    combo_of, combo_state, combo_text, combo_tokens, mod_bit, mods_text, nonempty_trimmed,
    normalize_key_spec,
};
use crate::text::{is_ws, split_char, lemma_split_nonempty, starts_with, trim, trim_end, trim_start, upper, upper_char};

verus! {

// --- splitting at `+` ----------------------------------------------------------

pub open spec fn no_plus(s: Seq<char>) -> bool {
    !s.contains('+')
}

proof fn lemma_split_append(s: Seq<char>, t: Seq<char>)
    requires
        no_plus(t),
    ensures
        split_char(s + t, '+') == split_char(s, '+').update(
            split_char(s, '+').len() - 1,
            split_char(s, '+').last() + t,
        ),
    decreases t.len(),
{
    lemma_split_nonempty(s, '+');
    let r = split_char(s, '+');
    if t.len() == 0 {
        assert(s + t =~= s);
        assert(r.last() + t =~= r.last());
        assert(r.update(r.len() - 1, r.last() + t) =~= r);
    } else {
        let t1 = t.drop_last();
        let x = t.last();
        assert(!t1.contains('+')) by {
            if t1.contains('+') {
                let j = choose|j: int| 0 <= j < t1.len() && t1[j] == '+';
                assert(t[j] == '+');
            }
        }
        assert(x != '+') by {
            assert(t[t.len() - 1] == x);
        }
        lemma_split_append(s, t1);
        assert((s + t).drop_last() =~= s + t1);
        assert((s + t).last() == x);
        let r1 = split_char(s + t1, '+');
        assert(r1 == r.update(r.len() - 1, r.last() + t1));
        assert(r1.last() == r.last() + t1);
        assert(r1.last().push(x) =~= r.last() + t);
        assert(r1.update(r1.len() - 1, r1.last().push(x)) =~= r.update(r.len() - 1, r.last() + t));
    }
}

proof fn lemma_split_sep(s: Seq<char>)
    ensures
        split_char(s.push('+'), '+') == split_char(s, '+').push(Seq::<char>::empty()),
{
    assert(s.push('+').drop_last() =~= s);
}

/// Modifier names joined, each followed by ` + `.
pub open spec fn plus_list(ns: Seq<Seq<char>>) -> Seq<char>
    decreases ns.len(),
{
    if ns.len() == 0 {
        Seq::empty()
    } else {
        plus_list(ns.drop_last()) + ns.last() + " + "@
    }
}

/// The pieces `split('+')` makes of `plus_list(ns) + t`.
pub open spec fn pieces(ns: Seq<Seq<char>>, t: Seq<char>) -> Seq<Seq<char>>
    decreases ns.len(),
{
    if ns.len() == 0 {
        seq![t]
    } else {
        pieces(ns.drop_last(), ns.last() + " "@).push(" "@ + t)
    }
}

proof fn lemma_split_plus_list(ns: Seq<Seq<char>>, t: Seq<char>)
    requires
        forall|i: int| 0 <= i < ns.len() ==> no_plus(#[trigger] ns[i]),
        no_plus(t),
    ensures
        split_char(plus_list(ns) + t, '+') == pieces(ns, t),
    decreases ns.len(),
{
    reveal_strlit(" + ");
    reveal_strlit(" ");
    if ns.len() == 0 {
        lemma_split_append(Seq::empty(), t);
        assert(Seq::<char>::empty() + t =~= t);
        assert(split_char(Seq::<char>::empty(), '+') =~= seq![Seq::<char>::empty()]);
        assert(seq![Seq::<char>::empty()].update(0, Seq::<char>::empty() + t) =~= seq![t]);
    } else {
        let n = ns.last();
        let ns1 = ns.drop_last();
        let u = n + " "@;
        assert(no_plus(n)) by {
            assert(ns[ns.len() - 1] == n);
        }
        assert(no_plus(u)) by {
            if u.contains('+') {
                let j = choose|j: int| 0 <= j < u.len() && u[j] == '+';
                if j < n.len() {
                    assert(n[j] == '+');
                }
            }
        }
        assert forall|i: int| 0 <= i < ns1.len() implies no_plus(#[trigger] ns1[i]) by {
            assert(ns1[i] == ns[i]);
        }
        lemma_split_plus_list(ns1, u);
        let a = plus_list(ns1) + u;
        let st = " "@ + t;
        assert(no_plus(st)) by {
            if st.contains('+') {
                let j = choose|j: int| 0 <= j < st.len() && st[j] == '+';
                if j > 0 {
                    assert(t[j - 1] == '+');
                }
            }
        }
        assert(plus_list(ns) + t =~= a.push('+') + st);
        lemma_split_sep(a);
        lemma_split_append(a.push('+'), st);
        let r = split_char(a, '+');
        assert(r.push(Seq::<char>::empty()).update(r.len() as int, Seq::<char>::empty() + st) =~= r.push(st));
    }
}

// --- trimming the pieces -------------------------------------------------------

/// Nonempty and without whitespace at either end: what `trim` leaves alone.
pub open spec fn tight(s: Seq<char>) -> bool {
    s.len() > 0 && !is_ws(s[0]) && !is_ws(s.last())
}

proof fn lemma_trim_tight(s: Seq<char>)
    requires
        tight(s),
    ensures
        trim(s) == s,
        trim(s + " "@) == s,
        trim(" "@ + s + " "@) == s,
{
    reveal_strlit(" ");
    assert(is_ws(' '));
    let a = s + " "@;
    assert(trim_start(a) == a) by {
        assert(a[0] == s[0]);
    }
    assert(a.drop_last() =~= s);
    assert(trim_end(a) == trim_end(s));
    let b = " "@ + s + " "@;
    assert(b.drop_first() =~= a);
    assert(trim_start(b) == trim_start(a));
}

proof fn lemma_trim_lead_space(t: Seq<char>)
    ensures
        trim(" "@ + t) == trim(t),
{
    reveal_strlit(" ");
    assert(is_ws(' '));
    assert((" "@ + t).drop_first() =~= t);
}

/// `trim` of a string that `trim` leaves nonempty is tight.
proof fn lemma_trim_is_tight(s: Seq<char>)
    requires
        trim(s).len() > 0,
    ensures
        tight(trim(s)),
        trim(trim(s)) == trim(s),
{
    lemma_trim_start_shape(s);
    lemma_trim_end_shape(trim_start(s));
    lemma_trim_tight(trim(s));
}

proof fn lemma_trim_start_shape(s: Seq<char>)
    ensures
        trim_start(s).len() > 0 ==> !is_ws(trim_start(s)[0]),
        exists|i: int| 0 <= i <= s.len() && trim_start(s) == s.skip(i),
    decreases s.len(),
{
    if s.len() > 0 && is_ws(s[0]) {
        lemma_trim_start_shape(s.drop_first());
        let i = choose|i: int| 0 <= i <= s.drop_first().len() && trim_start(s.drop_first()) == s.drop_first().skip(i);
        assert(s.drop_first().skip(i) =~= s.skip(i + 1));
    } else {
        assert(s.skip(0) =~= s);
    }
}

proof fn lemma_trim_end_shape(s: Seq<char>)
    ensures
        trim_end(s).len() > 0 ==> !is_ws(trim_end(s).last()),
        trim_end(s).len() > 0 && !is_ws(s[0]) ==> !is_ws(trim_end(s)[0]),
        exists|j: int| 0 <= j <= s.len() && trim_end(s) == s.take(j),
    decreases s.len(),
{
    if s.len() > 0 && is_ws(s.last()) {
        lemma_trim_end_shape(s.drop_last());
        let j = choose|j: int| 0 <= j <= s.drop_last().len() && trim_end(s.drop_last()) == s.drop_last().take(j);
        assert(s.drop_last().take(j) =~= s.take(j));
        if trim_end(s).len() > 0 {
            assert(trim_end(s)[0] == s[0]);
        }
    } else {
        assert(s.take(s.len() as int) =~= s);
    }
}

/// What `trim` leaves of a string without `+` has none either.
proof fn lemma_trim_no_plus(s: Seq<char>)
    requires
        no_plus(s),
    ensures
        no_plus(trim(s)),
{
    lemma_trim_start_shape(s);
    let i = choose|i: int| 0 <= i <= s.len() && trim_start(s) == s.skip(i);
    let ts = trim_start(s);
    lemma_trim_end_shape(ts);
    let j = choose|j: int| 0 <= j <= ts.len() && trim_end(ts) == ts.take(j);
    if trim(s).contains('+') {
        let k = choose|k: int| 0 <= k < trim(s).len() && trim(s)[k] == '+';
        assert(s[i + k] == '+');
    }
}

proof fn lemma_trimmed_pieces(ns: Seq<Seq<char>>, t: Seq<char>)
    requires
        forall|i: int| 0 <= i < ns.len() ==> tight(#[trigger] ns[i]),
        trim(t).len() > 0,
    ensures
        nonempty_trimmed(pieces(ns, t)) == ns.push(trim(t)),
    decreases ns.len(),
{
    lemma_trim_lead_space(t);
    if ns.len() == 0 {
        let p = seq![t];
        assert(p.drop_last() =~= Seq::<Seq<char>>::empty());
        assert(nonempty_trimmed(Seq::<Seq<char>>::empty()) == Seq::<Seq<char>>::empty());
        assert(Seq::<Seq<char>>::empty().push(trim(t)) =~= ns.push(trim(t)));
    } else {
        let n = ns.last();
        let ns1 = ns.drop_last();
        assert(tight(n)) by {
            assert(ns[ns.len() - 1] == n);
        }
        lemma_trim_tight(n);
        assert forall|i: int| 0 <= i < ns1.len() implies tight(#[trigger] ns1[i]) by {
            assert(ns1[i] == ns[i]);
        }
        lemma_trimmed_pieces(ns1, n + " "@);
        let p = pieces(ns, t);
        assert(p.drop_last() == pieces(ns1, n + " "@));
        assert(p.last() == " "@ + t);
        assert(ns1.push(n).push(trim(t)) =~= ns.push(trim(t)));
        assert(ns1.push(n) =~= ns);
    }
}

// --- modifiers -----------------------------------------------------------------

/// The modifier names a mask spells, in the fixed order.
pub open spec fn mod_names(m: u32) -> Seq<Seq<char>> {
    let a = if m & 64 != 0 {
        seq!["SUPER"@]
    } else {
        Seq::empty()
    };
    let b = if m & 4 != 0 {
        a.push("CTRL"@)
    } else {
        a
    };
    let c = if m & 8 != 0 {
        b.push("ALT"@)
    } else {
        b
    };
    if m & 1 != 0 {
        c.push("SHIFT"@)
    } else {
        c
    }
}

/// The modifier bits of names, or-ed together.
pub open spec fn or_bits(ns: Seq<Seq<char>>) -> u32
    decreases ns.len(),
{
    if ns.len() == 0 {
        0
    } else {
        or_bits(ns.drop_last()) | mod_bit(upper(ns.last()))
    }
}

proof fn lemma_names_facts()
    ensures
        upper("SUPER"@) == "SUPER"@,
        upper("CTRL"@) == "CTRL"@,
        upper("ALT"@) == "ALT"@,
        upper("SHIFT"@) == "SHIFT"@,
        mod_bit("SUPER"@) == 64,
        mod_bit("CTRL"@) == 4,
        mod_bit("ALT"@) == 8,
        mod_bit("SHIFT"@) == 1,
        tight("SUPER"@),
        tight("CTRL"@),
        tight("ALT"@),
        tight("SHIFT"@),
        no_plus("SUPER"@),
        no_plus("CTRL"@),
        no_plus("ALT"@),
        no_plus("SHIFT"@),
{
    reveal_strlit("SUPER");
    reveal_strlit("CTRL");
    reveal_strlit("ALT");
    reveal_strlit("SHIFT");
    reveal_strlit("MOD");
    reveal_strlit("CONTROL");
    assert(upper("SUPER"@) =~= "SUPER"@);
    assert(upper("CTRL"@) =~= "CTRL"@);
    assert(upper("ALT"@) =~= "ALT"@);
    assert(upper("SHIFT"@) =~= "SHIFT"@);
    assert("CTRL"@ != "SUPER"@ && "CTRL"@ != "MOD"@) by {
        assert("CTRL"@.len() != "SUPER"@.len());
        assert("CTRL"@[0] != "MOD"@[0]);
    }
    assert("ALT"@ != "SUPER"@ && "ALT"@ != "MOD"@ && "ALT"@ != "CTRL"@ && "ALT"@ != "CONTROL"@) by {
        assert("ALT"@.len() != "SUPER"@.len());
        assert("ALT"@[0] != "MOD"@[0]);
        assert("ALT"@.len() != "CTRL"@.len());
        assert("ALT"@.len() != "CONTROL"@.len());
    }
    assert("SHIFT"@ != "SUPER"@ && "SHIFT"@ != "MOD"@ && "SHIFT"@ != "CTRL"@ && "SHIFT"@ != "CONTROL"@
        && "SHIFT"@ != "ALT"@) by {
        assert("SHIFT"@[1] != "SUPER"@[1]);
        assert("SHIFT"@.len() != "MOD"@.len());
        assert("SHIFT"@.len() != "CTRL"@.len());
        assert("SHIFT"@.len() != "CONTROL"@.len());
        assert("SHIFT"@.len() != "ALT"@.len());
    }
}

proof fn lemma_plus_list_mods(m: u32)
    ensures
        plus_list(mod_names(m)) == mods_text(m),
        forall|i: int| 0 <= i < mod_names(m).len() ==> tight(#[trigger] mod_names(m)[i]) && no_plus(mod_names(m)[i])
            && mod_bit(upper(mod_names(m)[i])) != 0,
{
    lemma_names_facts();
    reveal_strlit(" + ");
    reveal_strlit("SUPER + ");
    reveal_strlit("CTRL + ");
    reveal_strlit("ALT + ");
    reveal_strlit("SHIFT + ");
    reveal_strlit("SUPER");
    reveal_strlit("CTRL");
    reveal_strlit("ALT");
    reveal_strlit("SHIFT");
    let e = Seq::<Seq<char>>::empty();
    let a = if m & 64 != 0 {
        seq!["SUPER"@]
    } else {
        e
    };
    let b = if m & 4 != 0 {
        a.push("CTRL"@)
    } else {
        a
    };
    let c = if m & 8 != 0 {
        b.push("ALT"@)
    } else {
        b
    };
    let d = if m & 1 != 0 {
        c.push("SHIFT"@)
    } else {
        c
    };
    assert(plus_list(e) == Seq::<char>::empty());
    let ta = if m & 64 != 0 {
        "SUPER + "@
    } else {
        Seq::<char>::empty()
    };
    let tb = if m & 4 != 0 {
        "CTRL + "@
    } else {
        Seq::<char>::empty()
    };
    let tc = if m & 8 != 0 {
        "ALT + "@
    } else {
        Seq::<char>::empty()
    };
    let td = if m & 1 != 0 {
        "SHIFT + "@
    } else {
        Seq::<char>::empty()
    };
    assert(plus_list(a) =~= ta) by {
        if m & 64 != 0 {
            assert(seq!["SUPER"@].drop_last() =~= e);
        }
    }
    assert(plus_list(b) =~= ta + tb) by {
        if m & 4 != 0 {
            assert(a.push("CTRL"@).drop_last() =~= a);
        } else {
            assert(ta + tb =~= ta);
        }
    }
    assert(plus_list(c) =~= ta + tb + tc) by {
        if m & 8 != 0 {
            assert(b.push("ALT"@).drop_last() =~= b);
        } else {
            assert(ta + tb + tc =~= ta + tb);
        }
    }
    assert(plus_list(d) =~= ta + tb + tc + td) by {
        if m & 1 != 0 {
            assert(c.push("SHIFT"@).drop_last() =~= c);
        } else {
            assert(ta + tb + tc + td =~= ta + tb + tc);
        }
    }
    assert(mods_text(m) =~= ta + tb + tc + td);
    assert(mod_names(m) == d);
}

proof fn lemma_or_bits_mods(m: u32)
    requires
        m & 77 == m,
    ensures
        or_bits(mod_names(m)) == m,
{
    lemma_names_facts();
    let e = Seq::<Seq<char>>::empty();
    let a = if m & 64 != 0 {
        seq!["SUPER"@]
    } else {
        e
    };
    let b = if m & 4 != 0 {
        a.push("CTRL"@)
    } else {
        a
    };
    let c = if m & 8 != 0 {
        b.push("ALT"@)
    } else {
        b
    };
    let d = if m & 1 != 0 {
        c.push("SHIFT"@)
    } else {
        c
    };
    let va: u32 = if m & 64 != 0 {
        64
    } else {
        0
    };
    let vb: u32 = if m & 4 != 0 {
        va | 4
    } else {
        va
    };
    let vc: u32 = if m & 8 != 0 {
        vb | 8
    } else {
        vb
    };
    let vd: u32 = if m & 1 != 0 {
        vc | 1
    } else {
        vc
    };
    assert(or_bits(a) == va) by {
        if m & 64 != 0 {
            let s1 = seq!["SUPER"@];
            assert(s1.drop_last() =~= e);
            assert(s1.last() == "SUPER"@);
            assert(or_bits(e) == 0);
            assert(mod_bit(upper(s1.last())) == 64);
            assert(0u32 | 64u32 == 64u32) by (bit_vector);
            assert(or_bits(s1) == or_bits(s1.drop_last()) | mod_bit(upper(s1.last())));
        }
    }
    assert(or_bits(b) == vb) by {
        if m & 4 != 0 {
            assert(a.push("CTRL"@).drop_last() =~= a);
        }
    }
    assert(or_bits(c) == vc) by {
        if m & 8 != 0 {
            assert(b.push("ALT"@).drop_last() =~= b);
        }
    }
    assert(or_bits(d) == vd) by {
        if m & 1 != 0 {
            assert(c.push("SHIFT"@).drop_last() =~= c);
        }
    }
    assert(vd == m) by (bit_vector)
        requires
            m & 77 == m,
            va == (if m & 64 != 0 { 64u32 } else { 0u32 }),
            vb == (if m & 4 != 0 { va | 4 } else { va }),
            vc == (if m & 8 != 0 { vb | 8 } else { vb }),
            vd == (if m & 1 != 0 { vc | 1 } else { vc }),
    ;
    assert(mod_names(m) == d);
}

/// `combo_state` over modifier names, then one key token.
proof fn lemma_state_of_names(ns: Seq<Seq<char>>, k: Seq<char>)
    requires
        forall|i: int| 0 <= i < ns.len() ==> mod_bit(upper(#[trigger] ns[i])) != 0,
        mod_bit(upper(k)) == 0,
    ensures
        combo_state(ns) == Some((or_bits(ns), None::<Seq<char>>)),
        combo_state(ns.push(k)) == Some((or_bits(ns), Some(k))),
    decreases ns.len(),
{
    if ns.len() > 0 {
        let ns1 = ns.drop_last();
        assert forall|i: int| 0 <= i < ns1.len() implies mod_bit(upper(#[trigger] ns1[i])) != 0 by {
            assert(ns1[i] == ns[i]);
        }
        lemma_state_of_names(ns1, k);
        assert(mod_bit(upper(ns.last())) != 0) by {
            assert(ns[ns.len() - 1] == ns.last());
        }
    }
    assert(ns.push(k).drop_last() =~= ns);
}

// --- what a parsed combo looks like ---------------------------------------------

proof fn lemma_split_no_plus(s: Seq<char>)
    ensures
        forall|i: int| 0 <= i < split_char(s, '+').len() ==> no_plus(#[trigger] split_char(s, '+')[i]),
    decreases s.len(),
{
    if s.len() > 0 {
        lemma_split_no_plus(s.drop_last());
        lemma_split_nonempty(s.drop_last(), '+');
        let r = split_char(s.drop_last(), '+');
        if s.last() != '+' {
            let n = r.last().push(s.last());
            assert(no_plus(r.last())) by {
                assert(r[r.len() - 1] == r.last());
            }
            assert(no_plus(n)) by {
                if n.contains('+') {
                    let j = choose|j: int| 0 <= j < n.len() && n[j] == '+';
                    assert(r.last()[j] == '+');
                }
            }
            let u = r.update(r.len() - 1, n);
            assert forall|i: int| 0 <= i < u.len() implies no_plus(#[trigger] u[i]) by {
                if i < r.len() - 1 {
                    assert(u[i] == r[i]);
                }
            }
        } else {
            let u = r.push(Seq::<char>::empty());
            assert forall|i: int| 0 <= i < u.len() implies no_plus(#[trigger] u[i]) by {
                if i < r.len() {
                    assert(u[i] == r[i]);
                }
            }
        }
    }
}

proof fn lemma_tokens_shape(ps: Seq<Seq<char>>)
    requires
        forall|i: int| 0 <= i < ps.len() ==> no_plus(#[trigger] ps[i]),
    ensures
        forall|i: int| 0 <= i < nonempty_trimmed(ps).len() ==> tight(#[trigger] nonempty_trimmed(ps)[i])
            && no_plus(nonempty_trimmed(ps)[i]),
    decreases ps.len(),
{
    if ps.len() > 0 {
        let ps1 = ps.drop_last();
        assert forall|i: int| 0 <= i < ps1.len() implies no_plus(#[trigger] ps1[i]) by {
            assert(ps1[i] == ps[i]);
        }
        lemma_tokens_shape(ps1);
        let r = nonempty_trimmed(ps1);
        let t = trim(ps.last());
        if t.len() > 0 {
            lemma_trim_is_tight(ps.last());
            assert(no_plus(ps.last())) by {
                assert(ps[ps.len() - 1] == ps.last());
            }
            lemma_trim_no_plus(ps.last());
            let u = r.push(t);
            assert forall|i: int| 0 <= i < u.len() implies tight(#[trigger] u[i]) && no_plus(u[i]) by {
                if i < r.len() {
                    assert(u[i] == r[i]);
                }
            }
        }
    }
}

proof fn lemma_state_shape(toks: Seq<Seq<char>>)
    ensures
        combo_state(toks) matches Some(st) ==> st.0 & 77 == st.0 && (st.1 matches Some(k) ==> toks.contains(k)
            && mod_bit(upper(k)) == 0),
    decreases toks.len(),
{
    if toks.len() == 0 {
        assert(0u32 & 77u32 == 0u32) by (bit_vector);
    } else {
        let t1 = toks.drop_last();
        lemma_state_shape(t1);
        match combo_state(t1) {
            None => {},
            Some(st) => {
                let b = mod_bit(upper(toks.last()));
                let x = st.0;
                if b != 0 {
                    assert(b == 64 || b == 4 || b == 8 || b == 1);
                    assert((x | b) & 77 == (x | b)) by (bit_vector)
                        requires
                            x & 77 == x,
                            b == 64 || b == 4 || b == 8 || b == 1,
                    ;
                    if st.1 is Some {
                        let k = st.1->0;
                        let j = choose|j: int| 0 <= j < t1.len() && t1[j] == k;
                        assert(toks[j] == k);
                    }
                } else if st.1 is None {
                    assert(toks[toks.len() - 1] == toks.last());
                }
            }
        }
    }
}

proof fn lemma_upper_char_facts(c: char)
    ensures
        upper_char(upper_char(c)) == upper_char(c),
        !is_ws(c) ==> !is_ws(upper_char(c)),
        upper_char(c) == '+' ==> c == '+',
        !('a' <= upper_char(c) && upper_char(c) <= 'z'),
{
}

/// A key token (tight, no `+`, not a modifier) stays one after
/// normalization, and normalizing again changes nothing.
proof fn lemma_normalized_key(k: Seq<char>)
    requires
        tight(k),
        no_plus(k),
        mod_bit(upper(k)) == 0,
    ensures
        tight(normalize_key_spec(k)),
        no_plus(normalize_key_spec(k)),
        mod_bit(upper(normalize_key_spec(k))) == 0,
        normalize_key_spec(normalize_key_spec(k)) == normalize_key_spec(k),
{
    reveal_strlit("code:");
    if !starts_with(k, "code:"@) {
        let u = upper(k);
        assert(u.len() == k.len());
        lemma_upper_char_facts(k[0]);
        lemma_upper_char_facts(k.last());
        assert(u[0] == upper_char(k[0]));
        assert(u.last() == upper_char(k.last()));
        assert(no_plus(u)) by {
            if u.contains('+') {
                let j = choose|j: int| 0 <= j < u.len() && u[j] == '+';
                lemma_upper_char_facts(k[j]);
                assert(k[j] == '+');
            }
        }
        assert(upper(u) =~= u) by {
            assert forall|j: int| 0 <= j < u.len() implies #[trigger] upper(u)[j] == u[j] by {
                lemma_upper_char_facts(k[j]);
            }
        }
        assert(!starts_with(u, "code:"@)) by {
            if starts_with(u, "code:"@) {
                assert(u.subrange(0, 5)[0] == u[0]);
                assert("code:"@[0] == 'c');
            }
        }
    }
}

/// The combo text opb writes (`SUPER + CTRL + key`) parses back to the very
/// combo it was printed from, for every combo that a parse produced.
pub proof fn law_combo_text_reads_back(input: Seq<char>)
    requires
        combo_of(input) is Some,
    ensures
        combo_of(combo_text(combo_of(input)->0)) == combo_of(input),
{
    let toks = combo_tokens(input);
    lemma_split_no_plus(input);
    lemma_tokens_shape(split_char(input, '+'));
    lemma_state_shape(toks);
    let st = combo_state(toks)->0;
    let m = st.0;
    let k = st.1->0;
    let j = choose|j: int| 0 <= j < toks.len() && toks[j] == k;
    assert(tight(k) && no_plus(k));
    lemma_normalized_key(k);
    let kn = normalize_key_spec(k);
    assert(combo_of(input) == Some((m, kn)));
    lemma_plus_list_mods(m);
    lemma_or_bits_mods(m);
    let names = mod_names(m);
    lemma_split_plus_list(names, kn);
    lemma_trim_tight(kn);
    lemma_trimmed_pieces(names, kn);
    lemma_state_of_names(names, kn);
    assert(combo_text((m, kn)) == plus_list(names) + kn);
}

} // verus!


