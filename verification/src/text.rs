//! Character-sequence toolkit: the string operations the rest of the
//! library is specified and implemented with.
use vstd::prelude::*;

verus! {

/// Unicode `White_Space`, as `char::is_whitespace` classifies it.
pub open spec fn is_ws(c: char) -> bool {
    let n = c as u32;
    ||| n == 0x20
    ||| 0x09 <= n <= 0x0d
    ||| n == 0x85
    ||| n == 0xa0
    ||| n == 0x1680
    ||| 0x2000 <= n <= 0x200a
    ||| n == 0x2028
    ||| n == 0x2029
    ||| n == 0x202f
    ||| n == 0x205f
    ||| n == 0x3000
}

pub fn is_ws_exec(c: char) -> (r: bool)
    ensures
        r == is_ws(c),
{
    let n = c as u32;
    n == 0x20 || (0x09 <= n && n <= 0x0d) || n == 0x85 || n == 0xa0 || n == 0x1680 || (0x2000
        <= n && n <= 0x200a) || n == 0x2028 || n == 0x2029 || n == 0x202f || n == 0x205f || n
        == 0x3000
}

pub open spec fn is_digit(c: char) -> bool {
    '0' <= c && c <= '9'
}

/// Appends `c` to `s` (`String::push`).
#[verifier::external_body]
pub(crate) fn push_char(s: &mut String, c: char)
    ensures
        final(s)@ == old(s)@.push(c),
{
    s.push(c);
}

/// The characters of `s`, in order.
pub fn chars_of(s: &str) -> (v: Vec<char>)
    ensures
        v@ == s@,
{
    let mut v: Vec<char> = Vec::new();
    for c in it: s.chars()
        invariant
            v@ == it.seq().take(it.index() as int),
            it.seq() == s@,
    {
        v.push(c);
    }
    v
}

/// A `String` holding exactly the characters `v`.
pub fn string_of(v: &[char]) -> (s: String)
    ensures
        s@ == v@,
{
    let mut s = String::new();
    let mut i: usize = 0;
    while i < v.len()
        invariant
            i <= v.len(),
            s@ == v@.take(i as int),
        decreases v.len() - i,
    {
        push_char(&mut s, v[i]);
        i += 1;
        assert(v@.take(i as int) == v@.take((i - 1) as int).push(v@[i - 1]));
    }
    assert(v@.take(v.len() as int) == v@);
    s
}

/// Copy of `v[a..b]`.
pub fn slice_vec(v: &[char], a: usize, b: usize) -> (r: Vec<char>)
    requires
        a <= b <= v.len(),
    ensures
        r@ == v@.subrange(a as int, b as int),
{
    let mut r: Vec<char> = Vec::new();
    let mut i = a;
    while i < b
        invariant
            a <= i <= b,
            b <= v.len(),
            r@ == v@.subrange(a as int, i as int),
        decreases b - i,
    {
        r.push(v[i]);
        i += 1;
        assert(v@.subrange(a as int, i as int) == v@.subrange(a as int, (i - 1) as int).push(
            v@[i - 1],
        ));
    }
    r
}

/// Appends all of `w` to `v`.
pub fn extend_chars(v: &mut Vec<char>, w: &[char])
    ensures
        final(v)@ == old(v)@ + w@,
{
    let mut i: usize = 0;
    while i < w.len()
        invariant
            i <= w.len(),
            v@ == old(v)@ + w@.take(i as int),
        decreases w.len() - i,
    {
        v.push(w[i]);
        i += 1;
        assert(w@.take(i as int) == w@.take((i - 1) as int).push(w@[i - 1]));
    }
    assert(w@.take(w.len() as int) == w@);
}

/// Appends the characters of `s` to `v`.
pub fn extend_str(v: &mut Vec<char>, s: &str)
    ensures
        final(v)@ == old(v)@ + s@,
{
    let w = chars_of(s);
    extend_chars(v, w.as_slice());
}

pub fn seq_eq(a: &[char], b: &[char]) -> (r: bool)
    ensures
        r == (a@ == b@),
{
    if a.len() != b.len() {
        return false;
    }
    let mut i: usize = 0;
    while i < a.len()
        invariant
            a.len() == b.len(),
            i <= a.len(),
            forall|j: int| 0 <= j < i ==> a@[j] == b@[j],
        decreases a.len() - i,
    {
        if a[i] != b[i] {
            return false;
        }
        i += 1;
    }
    assert(a@ =~= b@);
    true
}

pub fn eq_str(a: &[char], b: &str) -> (r: bool)
    ensures
        r == (a@ == b@),
{
    let w = chars_of(b);
    seq_eq(a, w.as_slice())
}

// --- prefixes, suffixes, occurrences -------------------------------------

pub open spec fn starts_with(s: Seq<char>, p: Seq<char>) -> bool {
    p.len() <= s.len() && s.take(p.len() as int) == p
}

pub open spec fn ends_with(s: Seq<char>, p: Seq<char>) -> bool {
    p.len() <= s.len() && s.skip(s.len() - p.len()) == p
}

pub open spec fn occurs_at(s: Seq<char>, p: Seq<char>, i: int) -> bool {
    0 <= i && i + p.len() <= s.len() && s.subrange(i, i + p.len()) == p
}

pub open spec fn contains(s: Seq<char>, p: Seq<char>) -> bool {
    exists|i: int| occurs_at(s, p, i)
}

pub fn starts_with_at(s: &[char], p: &[char], at: usize) -> (r: bool)
    requires
        at <= s.len(),
    ensures
        r == occurs_at(s@, p@, at as int),
{
    if p.len() > s.len() - at {
        return false;
    }
    let mut i: usize = 0;
    while i < p.len()
        invariant
            at + p.len() <= s.len(),
            i <= p.len(),
            forall|j: int| 0 <= j < i ==> s@[at + j] == p@[j],
        decreases p.len() - i,
    {
        if s[at + i] != p[i] {
            assert(s@.subrange(at as int, at + p.len())[i as int] != p@[i as int]);
            return false;
        }
        i += 1;
    }
    assert(s@.subrange(at as int, at + p.len()) =~= p@);
    true
}

pub fn starts_with_exec(s: &[char], p: &[char]) -> (r: bool)
    ensures
        r == starts_with(s@, p@),
{
    let r = starts_with_at(s, p, 0);
    assert(r == starts_with(s@, p@)) by {
        if p.len() <= s.len() {
            assert(s@.subrange(0, p@.len() as int) == s@.take(p@.len() as int));
        }
    }
    r
}

pub fn ends_with_exec(s: &[char], p: &[char]) -> (r: bool)
    ensures
        r == ends_with(s@, p@),
{
    if p.len() > s.len() {
        return false;
    }
    let r = starts_with_at(s, p, s.len() - p.len());
    assert(s@.subrange(s.len() - p.len(), s.len() as int) == s@.skip(s.len() - p.len()));
    r
}

pub fn starts_with_str(s: &[char], p: &str) -> (r: bool)
    ensures
        r == starts_with(s@, p@),
{
    let w = chars_of(p);
    starts_with_exec(s, w.as_slice())
}

pub fn ends_with_str(s: &[char], p: &str) -> (r: bool)
    ensures
        r == ends_with(s@, p@),
{
    let w = chars_of(p);
    ends_with_exec(s, w.as_slice())
}

/// First index at which `p` occurs in `s`.
pub open spec fn is_first_occurrence(s: Seq<char>, p: Seq<char>, i: int) -> bool {
    occurs_at(s, p, i) && forall|j: int| 0 <= j < i ==> !occurs_at(s, p, j)
}

pub fn find_exec(s: &[char], p: &[char]) -> (r: Option<usize>)
    ensures
        match r {
            Some(i) => is_first_occurrence(s@, p@, i as int),
            None => !contains(s@, p@),
        },
{
    if p.len() > s.len() {
        assert forall|j: int| !occurs_at(s@, p@, j) by {}
        return None;
    }
    let mut i: usize = 0;
    loop
        invariant
            p.len() <= s.len(),
            i <= s.len() - p.len(),
            forall|j: int| 0 <= j < i ==> !occurs_at(s@, p@, j),
        ensures
            forall|j: int| 0 <= j <= s.len() - p.len() ==> !occurs_at(s@, p@, j),
        decreases s.len() - p.len() - i,
    {
        if starts_with_at(s, p, i) {
            return Some(i);
        }
        if i == s.len() - p.len() {
            break;
        }
        i += 1;
    }
    assert forall|j: int| !occurs_at(s@, p@, j) by {
        if 0 <= j && occurs_at(s@, p@, j) {
            assert(j <= s.len() - p.len());
        }
    }
    None
}

pub fn contains_exec(s: &[char], p: &[char]) -> (r: bool)
    ensures
        r == contains(s@, p@),
{
    match find_exec(s, p) {
        Some(_) => true,
        None => false,
    }
}

pub fn contains_str(s: &[char], p: &str) -> (r: bool)
    ensures
        r == contains(s@, p@),
{
    let w = chars_of(p);
    contains_exec(s, w.as_slice())
}

pub fn contains_char(s: &[char], c: char) -> (r: bool)
    ensures
        r == s@.contains(c),
{
    let mut i: usize = 0;
    while i < s.len()
        invariant
            i <= s.len(),
            forall|j: int| 0 <= j < i ==> s@[j] != c,
        decreases s.len() - i,
    {
        if s[i] == c {
            return true;
        }
        i += 1;
    }
    false
}


// --- trimming --------------------------------------------------------------

pub open spec fn trim_start(s: Seq<char>) -> Seq<char>
    decreases s.len(),
{
    if s.len() > 0 && is_ws(s[0]) {
        trim_start(s.drop_first())
    } else {
        s
    }
}

pub open spec fn trim_end(s: Seq<char>) -> Seq<char>
    decreases s.len(),
{
    if s.len() > 0 && is_ws(s.last()) {
        trim_end(s.drop_last())
    } else {
        s
    }
}

/// `str::trim`: leading and trailing whitespace removed.
pub open spec fn trim(s: Seq<char>) -> Seq<char> {
    trim_end(trim_start(s))
}

proof fn lemma_trim_start_skip(s: Seq<char>, i: int)
    requires
        0 <= i <= s.len(),
        forall|j: int| 0 <= j < i ==> is_ws(s[j]),
    ensures
        trim_start(s) == trim_start(s.skip(i)),
    decreases i,
{
    if i > 0 {
        lemma_trim_start_skip(s.drop_first(), i - 1);
        assert(s.drop_first().skip(i - 1) == s.skip(i));
    } else {
        assert(s.skip(0) == s);
    }
}

proof fn lemma_trim_end_take(s: Seq<char>, i: int)
    requires
        0 <= i <= s.len(),
        forall|j: int| i <= j < s.len() ==> is_ws(s[j]),
    ensures
        trim_end(s) == trim_end(s.take(i)),
    decreases s.len() - i,
{
    if i < s.len() {
        lemma_trim_end_take(s.drop_last(), i);
        assert(s.drop_last().take(i) == s.take(i));
    } else {
        assert(s.take(i) == s);
    }
}

/// Whitespace padding on either side of a word is what `trim` removes:
/// with `pre` and `post` all whitespace and `core` neither starting nor
/// ending with whitespace (or empty), `trim(pre + core + post) == core`.
pub proof fn lemma_trim_padded(pre: Seq<char>, core: Seq<char>, post: Seq<char>)
    requires
        forall|j: int| 0 <= j < pre.len() ==> is_ws(#[trigger] pre[j]),
        forall|j: int| 0 <= j < post.len() ==> is_ws(#[trigger] post[j]),
        core.len() > 0 ==> !is_ws(core[0]) && !is_ws(core.last()),
    ensures
        trim(pre + core + post) == core,
{
    let s = pre + core + post;
    lemma_trim_start_skip(s, pre.len() as int);
    assert(s.skip(pre.len() as int) =~= core + post);
    if core.len() > 0 {
        assert(trim_start(core + post) == core + post);
        lemma_trim_end_take(core + post, core.len() as int);
        assert((core + post).take(core.len() as int) =~= core);
        assert(trim_end(core) == core);
    } else {
        assert(core + post =~= post);
        lemma_trim_start_skip(post, post.len() as int);
        assert(post.skip(post.len() as int) =~= Seq::<char>::empty());
        assert(trim_start(Seq::<char>::empty()) =~= Seq::<char>::empty());
        assert(trim_end(Seq::<char>::empty()) =~= Seq::<char>::empty());
    }
}

/// Index of the first non-whitespace character (or `len`).
pub fn lead_ws(s: &[char]) -> (r: usize)
    ensures
        r <= s.len(),
        trim_start(s@) == s@.skip(r as int),
{
    let mut i: usize = 0;
    while i < s.len() && is_ws_exec(s[i])
        invariant
            i <= s.len(),
            forall|j: int| 0 <= j < i ==> is_ws(s@[j]),
        decreases s.len() - i,
    {
        i += 1;
    }
    proof {
        lemma_trim_start_skip(s@, i as int);
    }
    i
}

/// One past the last non-whitespace character at or after `from`.
pub fn trail_ws(s: &[char]) -> (r: usize)
    ensures
        r <= s.len(),
        trim_end(s@) == s@.take(r as int),
{
    let mut i: usize = s.len();
    while i > 0 && is_ws_exec(s[i - 1])
        invariant
            i <= s.len(),
            forall|j: int| i <= j < s.len() ==> is_ws(s@[j]),
        decreases i,
    {
        i -= 1;
    }
    proof {
        lemma_trim_end_take(s@, i as int);
        if i > 0 {
            assert(s@.take(i as int).last() == s@[i - 1]);
        }
    }
    i
}

pub fn trim_start_exec(s: &[char]) -> (r: Vec<char>)
    ensures
        r@ == trim_start(s@),
{
    let a = lead_ws(s);
    slice_vec(s, a, s.len())
}

pub fn trim_end_exec(s: &[char]) -> (r: Vec<char>)
    ensures
        r@ == trim_end(s@),
{
    let b = trail_ws(s);
    slice_vec(s, 0, b)
}

pub fn trim_exec(s: &[char]) -> (r: Vec<char>)
    ensures
        r@ == trim(s@),
{
    let t = trim_start_exec(s);
    trim_end_exec(t.as_slice())
}

// --- splitting ---------------------------------------------------------------

pub open spec fn vviews(v: Seq<Vec<char>>) -> Seq<Seq<char>> {
    v.map_values(|x: Vec<char>| x@)
}

/// `str::split(c)`: the pieces between occurrences of `c` (always at least one).
pub open spec fn split_char(s: Seq<char>, c: char) -> Seq<Seq<char>>
    decreases s.len(),
{
    if s.len() == 0 {
        seq![Seq::<char>::empty()]
    } else {
        let r = split_char(s.drop_last(), c);
        if s.last() == c {
            r.push(Seq::<char>::empty())
        } else {
            r.update(r.len() - 1, r.last().push(s.last()))
        }
    }
}

pub proof fn lemma_split_nonempty(s: Seq<char>, c: char)
    ensures
        split_char(s, c).len() >= 1,
    decreases s.len(),
{
    if s.len() > 0 {
        lemma_split_nonempty(s.drop_last(), c);
    }
}

pub fn split_char_exec(s: &[char], c: char) -> (r: Vec<Vec<char>>)
    ensures
        vviews(r@) == split_char(s@, c),
{
    let mut out: Vec<Vec<char>> = Vec::new();
    let mut cur: Vec<char> = Vec::new();
    let mut i: usize = 0;
    proof {
        assert(s@.take(0) =~= Seq::<char>::empty());
        assert(vviews(out@).push(cur@) =~= split_char(s@.take(0), c));
    }
    while i < s.len()
        invariant
            i <= s.len(),
            vviews(out@).push(cur@) == split_char(s@.take(i as int), c),
        decreases s.len() - i,
    {
        let ghost pre = s@.take(i as int);
        let ch = s[i];
        proof {
            lemma_split_nonempty(pre, c);
        }
        i += 1;
        assert(s@.take(i as int).drop_last() == pre);
        assert(s@.take(i as int).last() == ch);
        if ch == c {
            let mut done: Vec<char> = Vec::new();
            std::mem::swap(&mut done, &mut cur);
            out.push(done);
            assert(vviews(out@).push(cur@) =~= split_char(s@.take(i as int), c));
        } else {
            cur.push(ch);
            assert(vviews(out@).push(cur@) =~= split_char(s@.take(i as int), c));
        }
    }
    assert(s@.take(s.len() as int) == s@);
    out.push(cur);
    assert(vviews(out@) =~= split_char(s@, c));
    out
}

/// One line of `str::lines`: a piece that ended in `\n` loses one trailing `\r`.
pub open spec fn strip_cr(l: Seq<char>) -> Seq<char> {
    if l.len() > 0 && l.last() == '\r' {
        l.drop_last()
    } else {
        l
    }
}

pub open spec fn strip_all(ps: Seq<Seq<char>>) -> Seq<Seq<char>>
    decreases ps.len(),
{
    if ps.len() == 0 {
        Seq::empty()
    } else {
        strip_all(ps.drop_last()).push(strip_cr(ps.last()))
    }
}

/// `str::lines`.
pub open spec fn lines(s: Seq<char>) -> Seq<Seq<char>> {
    let p = split_char(s, '\n');
    let full = strip_all(p.drop_last());
    if p.last().len() == 0 {
        full
    } else {
        full.push(p.last())
    }
}

pub fn lines_exec(s: &[char]) -> (r: Vec<Vec<char>>)
    ensures
        vviews(r@) == lines(s@),
{
    let pieces = split_char_exec(s, '\n');
    proof {
        lemma_split_nonempty(s@, '\n');
    }
    let ghost p = split_char(s@, '\n');
    let n = pieces.len();
    let mut out: Vec<Vec<char>> = Vec::new();
    let mut i: usize = 0;
    while i + 1 < n
        invariant
            n == pieces.len(),
            n >= 1,
            vviews(pieces@) == p,
            i + 1 <= n,
            vviews(out@) == strip_all(p.take(i as int)),
        decreases n - i,
    {
        let piece = &pieces[i];
        assert(piece@ == p[i as int]);
        let line = if piece.len() > 0 && piece[piece.len() - 1] == '\r' {
            slice_vec(piece.as_slice(), 0, piece.len() - 1)
        } else {
            slice_vec(piece.as_slice(), 0, piece.len())
        };
        assert(line@ == strip_cr(p[i as int]));
        out.push(line);
        i += 1;
        assert(p.take(i as int).drop_last() == p.take(i - 1));
        assert(vviews(out@) =~= strip_all(p.take(i as int)));
    }
    assert(p.take(i as int) == p.drop_last());
    let last = &pieces[n - 1];
    assert(last@ == p.last());
    if last.len() > 0 {
        let l = slice_vec(last.as_slice(), 0, last.len());
        let ghost before = vviews(out@);
        assert(l@ =~= p.last());
        out.push(l);
        assert(vviews(out@) =~= before.push(p.last()));
        assert(lines(s@) == strip_all(p.drop_last()).push(p.last()));
    }
    assert(vviews(out@) =~= lines(s@));
    out
}

/// `str::split_whitespace`: the maximal runs of non-whitespace characters.
pub open spec fn ws_tokens(s: Seq<char>) -> Seq<Seq<char>>
    decreases s.len(),
{
    if s.len() == 0 {
        Seq::empty()
    } else {
        let r = ws_tokens(s.drop_last());
        let c = s.last();
        if is_ws(c) {
            r
        } else if s.len() >= 2 && !is_ws(s[s.len() - 2]) {
            r.update(r.len() - 1, r.last().push(c))
        } else {
            r.push(seq![c])
        }
    }
}

pub proof fn lemma_ws_tokens_nonempty(s: Seq<char>)
    requires
        s.len() >= 1,
        !is_ws(s.last()),
    ensures
        ws_tokens(s).len() >= 1,
    decreases s.len(),
{
    if s.len() >= 2 && !is_ws(s[s.len() - 2]) {
        lemma_ws_tokens_nonempty(s.drop_last());
    }
}

pub fn ws_tokens_exec(s: &[char]) -> (r: Vec<Vec<char>>)
    ensures
        vviews(r@) == ws_tokens(s@),
{
    let mut out: Vec<Vec<char>> = Vec::new();
    let mut i: usize = 0;
    assert(s@.take(0) =~= Seq::<char>::empty());
    while i < s.len()
        invariant
            i <= s.len(),
            vviews(out@) == ws_tokens(s@.take(i as int)),
        decreases s.len() - i,
    {
        let ghost pre = s@.take(i as int);
        let ch = s[i];
        let ghost cur = s@.take(i + 1);
        assert(cur.drop_last() == pre);
        assert(cur.last() == ch);
        assert(i >= 1 ==> cur[cur.len() - 2] == s@[i - 1]);
        assert(i >= 1 ==> pre.last() == s@[i - 1]);
        if is_ws_exec(ch) {
        } else if i >= 1 && !is_ws_exec(s[i - 1]) {
            proof {
                lemma_ws_tokens_nonempty(pre);
            }
            let ghost r = vviews(out@);
            let mut last = out.pop().unwrap();
            assert(last@ == r.last());
            last.push(ch);
            out.push(last);
            assert(vviews(out@) =~= r.update(r.len() - 1, r.last().push(ch)));
        } else {
            let ghost r = vviews(out@);
            let mut t: Vec<char> = Vec::new();
            t.push(ch);
            assert(t@ =~= seq![ch]);
            out.push(t);
            assert(vviews(out@) =~= r.push(seq![ch]));
        }
        i += 1;
        assert(vviews(out@) =~= ws_tokens(cur));
    }
    assert(s@.take(s.len() as int) == s@);
    out
}


// --- replacement, padding, case -----------------------------------------------

/// `str::replace(p, r)` for a non-empty pattern: left-to-right,
/// non-overlapping occurrences of `p` replaced by `r`.
pub open spec fn replace_all(s: Seq<char>, p: Seq<char>, r: Seq<char>) -> Seq<char>
    decreases s.len(),
{
    if s.len() == 0 || p.len() == 0 {
        s
    } else if starts_with(s, p) {
        r + replace_all(s.skip(p.len() as int), p, r)
    } else {
        seq![s[0]] + replace_all(s.drop_first(), p, r)
    }
}

pub fn replace_all_exec(s: &[char], p: &[char], r: &[char]) -> (out: Vec<char>)
    requires
        p.len() > 0,
    ensures
        out@ == replace_all(s@, p@, r@),
{
    let mut out: Vec<char> = Vec::new();
    let mut i: usize = 0;
    assert(s@.skip(0) == s@);
    while i < s.len()
        invariant
            i <= s.len(),
            p.len() > 0,
            out@ + replace_all(s@.skip(i as int), p@, r@) == replace_all(s@, p@, r@),
        decreases s.len() - i,
    {
        let ghost rest = s@.skip(i as int);
        if starts_with_at(s, p, i) {
            assert(rest.take(p.len() as int) == s@.subrange(i as int, i + p.len()));
            assert(starts_with(rest, p@));
            assert(rest.skip(p.len() as int) == s@.skip(i + p.len()));
            let ghost before = out@;
            extend_chars(&mut out, r);
            assert(out@ + replace_all(s@.skip(i + p.len()), p@, r@) == before + (r@
                + replace_all(rest.skip(p.len() as int), p@, r@)));
            i += p.len();
        } else {
            assert(!starts_with(rest, p@)) by {
                if starts_with(rest, p@) {
                    assert(s@.subrange(i as int, i + p.len()) == rest.take(p.len() as int));
                }
            }
            assert(rest.drop_first() == s@.skip(i + 1));
            assert(rest[0] == s@[i as int]);
            let ghost before = out@;
            out.push(s[i]);
            assert(out@ + replace_all(s@.skip(i + 1), p@, r@) == before + (seq![rest[0]]
                + replace_all(rest.drop_first(), p@, r@)));
            i += 1;
        }
    }
    assert(s@.skip(s.len() as int) =~= Seq::<char>::empty());
    assert(out@ + Seq::<char>::empty() == out@);
    out
}

pub open spec fn spaces(n: nat) -> Seq<char> {
    Seq::new(n, |i: int| ' ')
}

/// `format!("{:<w$}", s)`: `s` padded with spaces to `w` characters.
/// The length `str::len` reports: the bytes of the UTF-8 encoding.
pub open spec fn byte_len(s: Seq<char>) -> nat {
    (vstd::utf8::encode_utf8(s).len() as usize) as nat
}

/// The byte length of a string.
pub fn byte_len_exec(s: &str) -> (r: usize)
    ensures
        r as nat == byte_len(s@),
{
    s.len()
}

pub open spec fn pad_right(s: Seq<char>, w: nat) -> Seq<char> {
    if s.len() >= w {
        s
    } else {
        s + spaces((w - s.len()) as nat)
    }
}

pub fn push_spaces(v: &mut Vec<char>, n: usize)
    ensures
        final(v)@ == old(v)@ + spaces(n as nat),
{
    let mut i: usize = 0;
    while i < n
        invariant
            i <= n,
            v@ == old(v)@ + spaces(i as nat),
        decreases n - i,
    {
        v.push(' ');
        i += 1;
        assert(spaces(i as nat) =~= spaces((i - 1) as nat).push(' '));
    }
}

/// Appends `s` padded with spaces to `w` characters.
pub fn push_padded(v: &mut Vec<char>, s: &[char], w: usize)
    ensures
        final(v)@ == old(v)@ + pad_right(s@, w as nat),
{
    extend_chars(v, s);
    if s.len() < w {
        push_spaces(v, w - s.len());
    }
}

pub open spec fn upper_char(c: char) -> char {
    if 'a' <= c && c <= 'z' {
        ((c as u32) - 32) as char
    } else {
        c
    }
}

/// `str::to_ascii_uppercase`.
pub open spec fn upper(s: Seq<char>) -> Seq<char> {
    s.map_values(|c: char| upper_char(c))
}

pub fn upper_char_exec(c: char) -> (r: char)
    ensures
        r == upper_char(c),
{
    if 'a' <= c && c <= 'z' {
        (((c as u32) - 32) as u8) as char
    } else {
        c
    }
}

pub fn upper_exec(s: &[char]) -> (r: Vec<char>)
    ensures
        r@ == upper(s@),
{
    let mut r: Vec<char> = Vec::new();
    let mut i: usize = 0;
    while i < s.len()
        invariant
            i <= s.len(),
            r@ == upper(s@.take(i as int)),
        decreases s.len() - i,
    {
        r.push(upper_char_exec(s[i]));
        i += 1;
        assert(upper(s@.take(i as int)) =~= upper(s@.take((i - 1) as int)).push(upper_char(s@[i - 1])));
    }
    assert(s@.take(s.len() as int) == s@);
    r
}


// --- decimal numbers -----------------------------------------------------------

pub open spec fn digit_char(d: int) -> char {
    ((48 + d) as u32) as char
}

pub open spec fn digit_value(c: char) -> int {
    (c as u32) - 48
}

/// Decimal rendering of `n` (`format!("{}", n)` for unsigned integers).
pub open spec fn dec(n: nat) -> Seq<char>
    decreases n,
{
    if n < 10 {
        seq![digit_char(n as int)]
    } else {
        dec(n / 10).push(digit_char((n % 10) as int))
    }
}

pub fn digit_char_exec(d: u64) -> (c: char)
    requires
        d < 10,
    ensures
        c == digit_char(d as int),
{
    ((48 + d) as u8) as char
}

pub fn dec_exec(n: u64) -> (r: Vec<char>)
    ensures
        r@ == dec(n as nat),
{
    let mut acc: Vec<char> = Vec::new();
    let mut m = n;
    while m >= 10
        invariant
            dec(n as nat) == dec(m as nat) + acc@,
        decreases m,
    {
        let c = digit_char_exec(m % 10);
        let ghost before = acc@;
        acc.insert(0, c);
        assert(acc@ =~= seq![c] + before);
        assert(dec(m as nat) == dec((m / 10) as nat).push(c));
        assert(dec((m / 10) as nat) + acc@ =~= dec((m / 10) as nat).push(c) + before);
        m = m / 10;
    }
    let c = digit_char_exec(m);
    let ghost before = acc@;
    acc.insert(0, c);
    assert(acc@ =~= seq![c] + before);
    acc
}

/// Value of a run of decimal digits.
pub open spec fn digits_value(d: Seq<char>) -> nat
    decreases d.len(),
{
    if d.len() == 0 {
        0
    } else {
        (digits_value(d.drop_last()) * 10 + digit_value(d.last())) as nat
    }
}

pub open spec fn all_digits(d: Seq<char>) -> bool {
    forall|i: int| 0 <= i < d.len() ==> is_digit(#[trigger] d[i])
}

/// What `str::parse` of an unsigned integer reads, before the range check:
/// an optional `+`, then one or more decimal digits.
pub open spec fn parse_uint(s: Seq<char>) -> Option<nat> {
    let d = if s.len() > 0 && s[0] == '+' {
        s.drop_first()
    } else {
        s
    };
    if d.len() > 0 && all_digits(d) {
        Some(digits_value(d))
    } else {
        None
    }
}

/// `str::parse::<u64>`.
pub open spec fn parse_u64(s: Seq<char>) -> Option<u64> {
    match parse_uint(s) {
        Some(v) => if v <= u64::MAX {
            Some(v as u64)
        } else {
            None
        },
        None => None,
    }
}

/// `str::parse::<u32>`.
pub open spec fn parse_u32(s: Seq<char>) -> Option<u32> {
    match parse_uint(s) {
        Some(v) => if v <= u32::MAX {
            Some(v as u32)
        } else {
            None
        },
        None => None,
    }
}

proof fn lemma_digits_prefix_le(d: Seq<char>, i: int)
    requires
        0 <= i <= d.len(),
        all_digits(d),
    ensures
        digits_value(d.take(i)) <= digits_value(d),
    decreases d.len() - i,
{
    if i < d.len() {
        assert(all_digits(d.drop_last())) by {
            assert forall|j: int| 0 <= j < d.drop_last().len() implies is_digit(
                #[trigger] d.drop_last()[j],
            ) by {
                assert(d.drop_last()[j] == d[j]);
            }
        }
        lemma_digits_prefix_le(d.drop_last(), i);
        assert(d.drop_last().take(i) == d.take(i));
        assert(is_digit(d[d.len() - 1]));
    } else {
        assert(d.take(i) == d);
    }
}

pub fn parse_u64_exec(s: &[char]) -> (r: Option<u64>)
    ensures
        r == parse_u64(s@),
{
    let start: usize = if s.len() > 0 && s[0] == '+' {
        1
    } else {
        0
    };
    let ghost d = if s@.len() > 0 && s@[0] == '+' {
        s@.drop_first()
    } else {
        s@
    };
    assert(d == s@.skip(start as int));
    if start >= s.len() {
        return None;
    }
    let mut acc: u64 = 0;
    let mut i = start;
    assert(d.take(0) =~= Seq::<char>::empty());
    while i < s.len()
        invariant
            start <= i <= s.len(),
            d == s@.skip(start as int),
            d == (if s@.len() > 0 && s@[0] == '+' {
                s@.drop_first()
            } else {
                s@
            }),
            all_digits(d.take(i - start)),
            acc as nat == digits_value(d.take(i - start)),
        decreases s.len() - i,
    {
        let c = s[i];
        let ghost k = i - start;
        assert(d[k] == c);
        if !('0' <= c && c <= '9') {
            assert(!all_digits(d)) by {
                assert(!is_digit(d[k]));
            }
            assert(parse_uint(s@) is None);
            return None;
        }
        let x = (c as u32 - 48) as u64;
        assert(d.take(k + 1).drop_last() == d.take(k));
        assert(d.take(k + 1).last() == c);
        assert(all_digits(d.take(k + 1))) by {
            assert forall|j: int| 0 <= j < k + 1 implies is_digit(#[trigger] d.take(k + 1)[j]) by {
                if j < k {
                    assert(d.take(k + 1)[j] == d.take(k)[j]);
                }
            }
        }
        assert(digits_value(d.take(k + 1)) == digits_value(d.take(k)) * 10 + x);
        if acc > 1844674407370955161 || (acc == 1844674407370955161 && x > 5) {
            proof {
                if all_digits(d) {
                    lemma_digits_prefix_le(d, k + 1);
                    assert(digits_value(d) > u64::MAX);
                }
            }
            assert(parse_u64(s@) is None);
            return None;
        }
        acc = acc * 10 + x;
        i += 1;
    }
    assert(d.take(i - start) == d);
    Some(acc)
}

pub fn parse_u32_exec(s: &[char]) -> (r: Option<u32>)
    ensures
        r == parse_u32(s@),
{
    match parse_u64_exec(s) {
        Some(v) => if v <= 4294967295 {
            Some(v as u32)
        } else {
            None
        },
        None => None,
    }
}


// --- ordering --------------------------------------------------------------------

/// `str` ordering: lexicographic by character (UTF-8 byte order agrees).
pub open spec fn lex_lt(a: Seq<char>, b: Seq<char>) -> bool
    decreases a.len(),
{
    if b.len() == 0 {
        false
    } else if a.len() == 0 {
        true
    } else if a[0] < b[0] {
        true
    } else if a[0] == b[0] {
        lex_lt(a.drop_first(), b.drop_first())
    } else {
        false
    }
}

pub proof fn lemma_lex_irrefl(a: Seq<char>)
    ensures
        !lex_lt(a, a),
    decreases a.len(),
{
    if a.len() > 0 {
        lemma_lex_irrefl(a.drop_first());
    }
}

pub proof fn lemma_lex_trans(a: Seq<char>, b: Seq<char>, c: Seq<char>)
    requires
        lex_lt(a, b),
        lex_lt(b, c),
    ensures
        lex_lt(a, c),
    decreases a.len(),
{
    if a.len() > 0 && b.len() > 0 && c.len() > 0 {
        if a[0] == b[0] && b[0] == c[0] {
            lemma_lex_trans(a.drop_first(), b.drop_first(), c.drop_first());
        }
    }
}

pub proof fn lemma_lex_total(a: Seq<char>, b: Seq<char>)
    requires
        a != b,
    ensures
        lex_lt(a, b) || lex_lt(b, a),
    decreases a.len(),
{
    if a.len() > 0 && b.len() > 0 {
        if a[0] == b[0] {
            if a.drop_first() == b.drop_first() {
                assert(a =~= seq![a[0]] + a.drop_first());
                assert(b =~= seq![b[0]] + b.drop_first());
            }
            lemma_lex_total(a.drop_first(), b.drop_first());
        } else {
        }
    } else if a.len() == 0 && b.len() == 0 {
        assert(a =~= b);
    }
}

pub proof fn lemma_lex_asym(a: Seq<char>, b: Seq<char>)
    requires
        lex_lt(a, b),
    ensures
        !lex_lt(b, a),
{
    if lex_lt(b, a) {
        lemma_lex_trans(a, b, a);
        lemma_lex_irrefl(a);
    }
}

pub fn lex_lt_exec(a: &[char], b: &[char]) -> (r: bool)
    ensures
        r == lex_lt(a@, b@),
{
    let mut i: usize = 0;
    assert(a@.skip(0) == a@ && b@.skip(0) == b@);
    loop
        invariant
            i <= a.len(),
            i <= b.len(),
            lex_lt(a@, b@) == lex_lt(a@.skip(i as int), b@.skip(i as int)),
        decreases a.len() - i,
    {
        let ghost sa = a@.skip(i as int);
        let ghost sb = b@.skip(i as int);
        if i == b.len() {
            assert(sb.len() == 0);
            return false;
        }
        if i == a.len() {
            return true;
        }
        assert(sa[0] == a@[i as int] && sb[0] == b@[i as int]);
        if a[i] < b[i] {
            return true;
        }
        if a[i] != b[i] {
            return false;
        }
        assert(sa.drop_first() == a@.skip(i + 1));
        assert(sb.drop_first() == b@.skip(i + 1));
        i += 1;
    }
}

pub fn str_lt(a: &str, b: &str) -> (r: bool)
    ensures
        r == lex_lt(a@, b@),
{
    let x = chars_of(a);
    let y = chars_of(b);
    lex_lt_exec(x.as_slice(), y.as_slice())
}

pub open spec fn sviews(v: Seq<String>) -> Seq<Seq<char>> {
    v.map_values(|x: String| x@)
}

pub open spec fn sorted_strict(s: Seq<Seq<char>>) -> bool {
    forall|i: int, j: int| 0 <= i < j < s.len() ==> lex_lt(s[i], s[j])
}

/// Two strictly sorted sequences holding the same strings are the same
/// sequence.
pub proof fn lemma_sorted_strict_unique(a: Seq<Seq<char>>, b: Seq<Seq<char>>)
    requires
        sorted_strict(a),
        sorted_strict(b),
        a.to_set() == b.to_set(),
    ensures
        a == b,
    decreases a.len(),
{
    if a.len() == 0 || b.len() == 0 {
        if b.len() > 0 {
            assert(b.to_set().contains(b[0]));
        }
        if a.len() > 0 {
            assert(a.to_set().contains(a[0]));
        }
        assert(a =~= b);
    } else {
        assert(b.to_set().contains(a[0]));
        assert(a.to_set().contains(b[0]));
        let j = choose|j: int| 0 <= j < b.len() && b[j] == a[0];
        let i = choose|i: int| 0 <= i < a.len() && a[i] == b[0];
        if a[0] != b[0] {
            assert(i > 0 && j > 0);
            assert(lex_lt(a[0], a[i]));
            assert(lex_lt(b[0], b[j]));
            lemma_lex_trans(a[0], b[0], a[0]);
            lemma_lex_irrefl(a[0]);
        }
        let a1 = a.drop_first();
        let b1 = b.drop_first();
        assert forall|x: Seq<char>| a1.to_set().contains(x) <==> b1.to_set().contains(x) by {
            if a1.to_set().contains(x) {
                let k = choose|k: int| 0 <= k < a1.len() && a1[k] == x;
                assert(a[k + 1] == x);
                assert(lex_lt(a[0], x));
                assert(a.to_set().contains(x));
                let m = choose|m: int| 0 <= m < b.len() && b[m] == x;
                if m == 0 {
                    lemma_lex_irrefl(x);
                }
                assert(b1[m - 1] == x);
            }
            if b1.to_set().contains(x) {
                let k = choose|k: int| 0 <= k < b1.len() && b1[k] == x;
                assert(b[k + 1] == x);
                assert(lex_lt(b[0], x));
                assert(b.to_set().contains(x));
                let m = choose|m: int| 0 <= m < a.len() && a[m] == x;
                if m == 0 {
                    lemma_lex_irrefl(x);
                }
                assert(a1[m - 1] == x);
            }
        }
        assert(a1.to_set() =~= b1.to_set());
        lemma_sorted_strict_unique(a1, b1);
        assert(a =~= seq![a[0]] + a1);
        assert(b =~= seq![b[0]] + b1);
    }
}

pub open spec fn sorted(s: Seq<Seq<char>>) -> bool {
    forall|i: int, j: int| 0 <= i < j < s.len() ==> !lex_lt(s[j], s[i])
}

/// `v.sort(); v.dedup();` on strings: the distinct strings in increasing order.
pub fn sorted_unique(ids: &[String]) -> (r: Vec<String>)
    ensures
        sorted_strict(sviews(r@)),
        sviews(r@).to_set() == sviews(ids@).to_set(),
{
    let mut out: Vec<String> = Vec::new();
    let mut i: usize = 0;
    while i < ids.len()
        invariant
            i <= ids.len(),
            sorted_strict(sviews(out@)),
            sviews(out@).to_set() == sviews(ids@.take(i as int)).to_set(),
        decreases ids.len() - i,
    {
        let id = &ids[i];
        let ghost o = sviews(out@);
        // first position not below `id`
        let mut p: usize = 0;
        while p < out.len() && str_lt(out[p].as_str(), id.as_str())
            invariant
                p <= out.len(),
                o == sviews(out@),
                forall|k: int| 0 <= k < p ==> lex_lt(o[k], id@),
            decreases out.len() - p,
        {
            p += 1;
        }
        let dup = p < out.len() && out[p].eq(id);
        if !dup {
            out.insert(p, id.clone());
            proof {
                let n = sviews(out@);
                assert(n =~= o.insert(p as int, id@));
                assert forall|a: int, b: int| 0 <= a < b < n.len() implies lex_lt(n[a], n[b]) by {
                    if b == p {
                        assert(lex_lt(o[a], id@));
                    } else if a == p {
                        assert(!lex_lt(o[p as int], id@));
                        assert(o[p as int] != id@);
                        lemma_lex_total(o[p as int], id@);
                        if b - 1 > p {
                            assert(lex_lt(o[p as int], o[b - 1]));
                            lemma_lex_trans(id@, o[p as int], o[b - 1]);
                        }
                    } else if a < p && b > p {
                        assert(lex_lt(o[a], o[b - 1]));
                    } else if b < p {
                        assert(lex_lt(o[a], o[b]));
                    } else {
                        assert(lex_lt(o[a - 1], o[b - 1]));
                    }
                }
            }
        }
        proof {
            let n = sviews(out@);
            let t = sviews(ids@.take(i + 1));
            assert(t =~= sviews(ids@.take(i as int)).push(id@));
            if dup {
                assert(o[p as int] == id@);
                assert(n.to_set() =~= t.to_set()) by {
                    assert forall|x: Seq<char>| t.to_set().contains(x) implies n.to_set().contains(x) by {
                        if x == id@ {
                            assert(n[p as int] == x);
                        } else {
                            assert(sviews(ids@.take(i as int)).to_set().contains(x));
                        }
                    }
                    assert forall|x: Seq<char>| n.to_set().contains(x) implies t.to_set().contains(x) by {
                        assert(sviews(ids@.take(i as int)).to_set().contains(x));
                        let k = choose|k: int| 0 <= k < sviews(ids@.take(i as int)).len() && sviews(ids@.take(i as int))[k] == x;
                        assert(t[k] == x);
                    }
                }
            } else {
                assert(n.to_set() =~= t.to_set()) by {
                    assert forall|x: Seq<char>| t.to_set().contains(x) implies n.to_set().contains(x) by {
                        if x == id@ {
                            assert(n[p as int] == x);
                        } else {
                            assert(o.to_set().contains(x));
                            let k = choose|k: int| 0 <= k < o.len() && o[k] == x;
                            if k < p {
                                assert(n[k] == x);
                            } else {
                                assert(n[k + 1] == x);
                            }
                        }
                    }
                    assert forall|x: Seq<char>| n.to_set().contains(x) implies t.to_set().contains(x) by {
                        let k = choose|k: int| 0 <= k < n.len() && n[k] == x;
                        if k == p {
                            assert(t[i as int] == x);
                        } else {
                            let kk = if k < p { k } else { k - 1 };
                            assert(o[kk] == x);
                            assert(o.to_set().contains(x));
                            let m = choose|m: int| 0 <= m < sviews(ids@.take(i as int)).len() && sviews(ids@.take(i as int))[m] == x;
                            assert(t[m] == x);
                        }
                    }
                }
            }
        }
        i += 1;
    }
    assert(ids@.take(ids.len() as int) == ids@);
    out
}


/// `v.sort()` on strings: the same strings, in non-decreasing order.
pub fn sort_strings(v: Vec<String>) -> (r: Vec<String>)
    ensures
        sorted(sviews(r@)),
        sviews(r@).to_multiset() == sviews(v@).to_multiset(),
{
    let mut out: Vec<String> = Vec::new();
    let mut i: usize = 0;
    assert(sviews(v@.take(0)) =~= Seq::<Seq<char>>::empty());
    assert(sviews(out@) =~= Seq::<Seq<char>>::empty());
    while i < v.len()
        invariant
            i <= v.len(),
            sorted(sviews(out@)),
            sviews(out@).to_multiset() == sviews(v@.take(i as int)).to_multiset(),
        decreases v.len() - i,
    {
        let id = &v[i];
        let ghost o = sviews(out@);
        let mut p: usize = 0;
        while p < out.len() && !str_lt(id.as_str(), out[p].as_str())
            invariant
                p <= out.len(),
                o == sviews(out@),
                forall|k: int| 0 <= k < p ==> !lex_lt(id@, o[k]),
            decreases out.len() - p,
        {
            p += 1;
        }
        out.insert(p, id.clone());
        proof {
            broadcast use vstd::seq_lib::to_multiset_insert, vstd::seq_lib::to_multiset_build;
            let n = sviews(out@);
            assert(n =~= o.insert(p as int, id@));
            assert forall|a: int, b: int| 0 <= a < b < n.len() implies !lex_lt(n[b], n[a]) by {
                if b == p {
                    assert(!lex_lt(id@, o[a]));
                } else if a == p {
                    // id < o[p] <= o[b-1]
                    assert(lex_lt(id@, o[p as int]));
                    lemma_lex_asym(id@, o[p as int]);
                    if b - 1 > p {
                        assert(!lex_lt(o[b - 1], o[p as int]));
                        if lex_lt(o[b - 1], id@) {
                            lemma_lex_trans(o[b - 1], id@, o[p as int]);
                        }
                    }
                } else if a < p && b > p {
                    assert(!lex_lt(o[b - 1], o[a]));
                } else if b < p {
                    assert(!lex_lt(o[b], o[a]));
                } else {
                    assert(!lex_lt(o[b - 1], o[a - 1]));
                }
            }
            assert(sviews(v@.take(i + 1)) =~= sviews(v@.take(i as int)).push(id@));
        }
        i += 1;
    }
    assert(v@.take(v.len() as int) == v@);
    out
}


// --- debug quoting -------------------------------------------------------------

/// What `format!("{:?}", s)` renders for a string: std's quoted and escaped form.
pub uninterp spec fn debug_quoted(s: Seq<char>) -> Seq<char>;

/// `format!("{:?}", s)` (std's `Debug` for `str`).
#[verifier::external_body]
pub(crate) fn debug_str(s: &str) -> (r: String)
    ensures
        r@ == debug_quoted(s@),
{
    format!("{:?}", s)
}

// --- first occurrences ---------------------------------------------------------

/// `s` with later repeats dropped (first occurrence kept, order preserved).
pub open spec fn dedupe_seq<A>(s: Seq<A>) -> Seq<A>
    decreases s.len(),
{
    if s.len() == 0 {
        Seq::empty()
    } else {
        let r = dedupe_seq(s.drop_last());
        if s.drop_last().contains(s.last()) {
            r
        } else {
            r.push(s.last())
        }
    }
}

pub proof fn lemma_dedupe_contains<A>(s: Seq<A>, x: A)
    ensures
        dedupe_seq(s).contains(x) == s.contains(x),
    decreases s.len(),
{
    if s.len() > 0 {
        lemma_dedupe_contains(s.drop_last(), x);
        if s.drop_last().contains(x) {
            let i = choose|i: int| 0 <= i < s.drop_last().len() && s.drop_last()[i] == x;
            assert(s[i] == x);
        }
        if s.contains(x) && x != s.last() {
            let i = choose|i: int| 0 <= i < s.len() && s[i] == x;
            assert(s.drop_last()[i] == x);
        }
        if dedupe_seq(s).contains(x) && !dedupe_seq(s.drop_last()).contains(x) {
            assert(x == s.last());
            assert(s[s.len() - 1] == x);
        }
        if dedupe_seq(s.drop_last()).contains(x) {
            let i = choose|i: int| 0 <= i < dedupe_seq(s.drop_last()).len() && dedupe_seq(s.drop_last())[i] == x;
            if !s.drop_last().contains(s.last()) {
                assert(dedupe_seq(s)[i] == x);
            }
        }
        if x == s.last() && !s.drop_last().contains(s.last()) {
            assert(dedupe_seq(s).last() == x);
        }
    }
}

/// Distinct strings, first occurrence first.
pub fn dedupe_strings(v: Vec<Vec<char>>) -> (r: Vec<Vec<char>>)
    ensures
        vviews(r@) == dedupe_seq(vviews(v@)),
{
    let ghost s = vviews(v@);
    let mut out: Vec<Vec<char>> = Vec::new();
    let mut i: usize = 0;
    assert(s.take(0) =~= Seq::<Seq<char>>::empty());
    while i < v.len()
        invariant
            i <= v.len(),
            s == vviews(v@),
            vviews(out@) == dedupe_seq(s.take(i as int)),
        decreases v.len() - i,
    {
        let ghost pre = s.take(i as int);
        let mut seen = false;
        let mut j: usize = 0;
        while j < out.len()
            invariant
                j <= out.len(),
                i < v.len(),
                s == vviews(v@),
                vviews(out@) == dedupe_seq(pre),
                seen == vviews(out@).take(j as int).contains(s[i as int]),
            decreases out.len() - j,
        {
            let ghost t = vviews(out@).take(j as int);
            let ghost x = vviews(out@)[j as int];
            let ghost y = s[i as int];
            if seq_eq(out[j].as_slice(), v[i].as_slice()) {
                seen = true;
            }
            proof {
                assert(vviews(out@).take(j + 1) =~= t.push(x));
                if t.push(x).contains(y) && !t.contains(y) {
                    let k = choose|k: int| 0 <= k < t.len() + 1 && t.push(x)[k] == y;
                    if k < t.len() {
                        assert(t[k] == y);
                    }
                }
                if t.contains(y) {
                    let k = choose|k: int| 0 <= k < t.len() && t[k] == y;
                    assert(t.push(x)[k] == y);
                }
                if x == y {
                    assert(t.push(x)[t.len() as int] == y);
                }
            }
            j += 1;
        }
        assert(vviews(out@).take(j as int) == vviews(out@));
        proof {
            lemma_dedupe_contains(pre, s[i as int]);
        }
        assert(s.take(i + 1).drop_last() == pre);
        assert(s.take(i + 1).last() == s[i as int]);
        if !seen {
            let ghost before = vviews(out@);
            let c = slice_vec(v[i].as_slice(), 0, v[i].len());
            assert(c@ =~= s[i as int]);
            out.push(c);
            assert(vviews(out@) =~= before.push(s[i as int]));
        }
        i += 1;
    }
    assert(s.take(v.len() as int) == s);
    out
}


// --- first occurrence as a function ------------------------------------------------

/// `str::find`: the first index at which `p` occurs in `s`.
pub open spec fn find_spec(s: Seq<char>, p: Seq<char>) -> Option<int> {
    if contains(s, p) {
        Some(choose|i: int| is_first_occurrence(s, p, i))
    } else {
        None
    }
}

pub proof fn lemma_find_spec(s: Seq<char>, p: Seq<char>, i: int)
    requires
        is_first_occurrence(s, p, i),
    ensures
        find_spec(s, p) == Some(i),
{
    let c = choose|i: int| is_first_occurrence(s, p, i);
    assert(is_first_occurrence(s, p, c));
    if c < i {
        assert(!occurs_at(s, p, c));
    }
    if i < c {
        assert(!occurs_at(s, p, i));
    }
}

/// The first index at which `p` occurs in `s`.
pub fn find_str(s: &[char], p: &str) -> (r: Option<usize>)
    ensures
        match r {
            Some(i) => find_spec(s@, p@) == Some(i as int) && i + p@.len() <= s.len(),
            None => find_spec(s@, p@) is None,
        },
{
    let w = chars_of(p);
    let r = find_exec(s, w.as_slice());
    match r {
        Some(i) => {
            proof {
                lemma_find_spec(s@, p@, i as int);
            }
        },
        None => {},
    }
    r
}

/// `s.strip_prefix('"').and_then(|s| s.strip_suffix('"'))`.
pub open spec fn unquote(s: Seq<char>) -> Option<Seq<char>> {
    if s.len() >= 2 && s[0] == '"' && s.last() == '"' {
        Some(s.subrange(1, s.len() - 1))
    } else {
        None
    }
}

pub fn unquote_exec(s: &[char]) -> (r: Option<Vec<char>>)
    ensures
        match r {
            Some(v) => unquote(s@) == Some(v@),
            None => unquote(s@) is None,
        },
{
    if s.len() >= 2 && s[0] == '"' && s[s.len() - 1] == '"' {
        Some(slice_vec(s, 1, s.len() - 1))
    } else {
        None
    }
}

} // verus!
