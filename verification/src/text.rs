//! Character-level text utilities over the `Seq<char>` view of strings.

use vstd::prelude::*;

verus! {

/// Appends one character to a string with `String::push`.
///
/// Claims what the std documentation says: the character is added at the end.
#[verifier::external_body]
pub(crate) fn push_char(s: &mut String, c: char)
    ensures
        final(s)@ == old(s)@.push(c),
{
    s.push(c);
}

/// The characters of `s`, in order.
pub fn chars_of(s: &str) -> (v: Vec<char>)
    ensures
        v@ == s@,
{
    let mut v: Vec<char> = Vec::new();
    for c in it: s.chars()
        invariant
            v@ == it.seq().take(it.index()),
    {
        v.push(c);
    }
    v
}

/// A `String` holding exactly the characters of `v`.
pub fn string_of(v: &[char]) -> (s: String)
    ensures
        s@ == v@,
{
    let mut s = String::new();
    let mut i: usize = 0;
    while i < v.len()
        invariant
            i <= v.len(),
            s@ == v@.take(i as int),
        decreases v.len() - i,
    {
        push_char(&mut s, v[i]);
        assert(v@.take(i as int).push(v@[i as int]) =~= v@.take(i + 1));
        i = i + 1;
    }
    assert(v@.take(v.len() as int) =~= v@);
    s
}


/// The Unicode `White_Space` property: the characters that `char::is_whitespace`,
/// `str::trim`, `str::split_whitespace` and the regex class `\s` treat as white space.
pub open spec fn is_white_space(c: char) -> bool {
    let u: u32 = c as u32;
    ||| 0x9 <= u <= 0xd
    ||| u == 0x20
    ||| u == 0x85
    ||| u == 0xa0
    ||| u == 0x1680
    ||| 0x2000 <= u <= 0x200a
    ||| u == 0x2028
    ||| u == 0x2029
    ||| u == 0x202f
    ||| u == 0x205f
    ||| u == 0x3000
}

/// Whether `c` is a white-space character.
pub fn is_whitespace_char(c: char) -> (b: bool)
    ensures
        b == is_white_space(c),
{
    let u: u32 = c as u32;
    (0x9 <= u && u <= 0xd) || u == 0x20 || u == 0x85 || u == 0xa0 || u == 0x1680 || (0x2000 <= u
        && u <= 0x200a) || u == 0x2028 || u == 0x2029 || u == 0x202f || u == 0x205f || u == 0x3000
}

/// `s` without its leading characters that satisfy `strip`.
pub open spec fn trim_start_where(s: Seq<char>, strip: spec_fn(char) -> bool) -> Seq<char>
    decreases s.len(),
{
    if s.len() > 0 && strip(s[0]) {
        trim_start_where(s.drop_first(), strip)
    } else {
        s
    }
}

/// `s` without its trailing characters that satisfy `strip`.
pub open spec fn trim_end_where(s: Seq<char>, strip: spec_fn(char) -> bool) -> Seq<char>
    decreases s.len(),
{
    if s.len() > 0 && strip(s.last()) {
        trim_end_where(s.drop_last(), strip)
    } else {
        s
    }
}

/// `s` without the characters satisfying `strip` at either end.
pub open spec fn trim_where(s: Seq<char>, strip: spec_fn(char) -> bool) -> Seq<char> {
    trim_end_where(trim_start_where(s, strip), strip)
}

/// The white-space predicate as a value.
pub open spec fn white_space() -> spec_fn(char) -> bool {
    |c: char| is_white_space(c)
}

/// `s` without white space at either end, as `str::trim` gives it.
pub open spec fn trim_ws(s: Seq<char>) -> Seq<char> {
    trim_where(s, white_space())
}

/// The front of the trimmed start is not stripped, and the trimmed start is a
/// suffix of `s`.
proof fn lemma_trim_start_shape(s: Seq<char>, strip: spec_fn(char) -> bool)
    ensures
        ({
            let t = trim_start_where(s, strip);
            &&& t.len() <= s.len()
            &&& t =~= s.skip(s.len() - t.len())
            &&& (t.len() > 0 ==> !strip(t[0]))
        }),
    decreases s.len(),
{
    if s.len() > 0 && strip(s[0]) {
        lemma_trim_start_shape(s.drop_first(), strip);
    }
}

/// The back of the trimmed end is not stripped, and the trimmed end is a
/// prefix of `s`.
proof fn lemma_trim_end_shape(s: Seq<char>, strip: spec_fn(char) -> bool)
    ensures
        ({
            let t = trim_end_where(s, strip);
            &&& t.len() <= s.len()
            &&& t =~= s.take(t.len() as int)
            &&& (t.len() > 0 ==> !strip(t.last()))
        }),
    decreases s.len(),
{
    if s.len() > 0 && strip(s.last()) {
        lemma_trim_end_shape(s.drop_last(), strip);
    }
}

/// Trimming a text whose first character is kept keeps it first.
proof fn lemma_trim_end_keeps_front(s: Seq<char>, strip: spec_fn(char) -> bool)
    requires
        s.len() > 0 ==> !strip(s[0]),
    ensures
        trim_end_where(s, strip).len() > 0 ==> !strip(trim_end_where(s, strip)[0]),
        trim_start_where(trim_end_where(s, strip), strip) == trim_end_where(s, strip),
{
    lemma_trim_end_shape(s, strip);
}

/// A trimmed text has no white space at either end, and trimming it again
/// changes nothing.
pub proof fn law_trim_ws(s: Seq<char>)
    ensures
        trim_ws(s).len() > 0 ==> !is_white_space(trim_ws(s)[0]),
        trim_ws(s).len() > 0 ==> !is_white_space(trim_ws(s).last()),
        trim_ws(trim_ws(s)) == trim_ws(s),
{
    let w = white_space();
    let a = trim_start_where(s, w);
    lemma_trim_start_shape(s, w);
    lemma_trim_end_keeps_front(a, w);
    let t = trim_end_where(a, w);
    lemma_trim_end_shape(a, w);
    lemma_trim_end_shape(t, w);
    assert(trim_start_where(t, w) == t);
    assert(trim_end_where(t, w) == t);
}

/// Skipping one stripped character at the front does not change the trimmed start.
proof fn lemma_trim_start_step(s: Seq<char>, i: int, strip: spec_fn(char) -> bool)
    requires
        0 <= i < s.len(),
        strip(s[i]),
    ensures
        trim_start_where(s.skip(i), strip) == trim_start_where(s.skip(i + 1), strip),
{
    assert(s.skip(i).drop_first() =~= s.skip(i + 1));
}

/// Dropping one stripped character at the back does not change the trimmed end.
proof fn lemma_trim_end_step(s: Seq<char>, j: int, strip: spec_fn(char) -> bool)
    requires
        0 < j <= s.len(),
        strip(s[j - 1]),
    ensures
        trim_end_where(s.take(j), strip) == trim_end_where(s.take(j - 1), strip),
{
    assert(s.take(j).drop_last() =~= s.take(j - 1));
}

/// The characters of `v` without white space at either end.
pub fn trim_chars(v: &[char]) -> (r: Vec<char>)
    ensures
        r@ == trim_ws(v@),
{
    let ghost strip = white_space();
    let mut i: usize = 0;
    assert(v@.skip(0) =~= v@);
    while i < v.len() && is_whitespace_char(v[i])
        invariant
            i <= v.len(),
            strip == white_space(),
            trim_start_where(v@, strip) == trim_start_where(v@.skip(i as int), strip),
        decreases v.len() - i,
    {
        proof {
            lemma_trim_start_step(v@, i as int, strip);
        }
        i = i + 1;
    }
    let ghost start = v@.skip(i as int);
    assert(trim_start_where(start, strip) == start);
    let mut j: usize = v.len();
    assert(start.take(start.len() as int) =~= start);
    while j > i && is_whitespace_char(v[j - 1])
        invariant
            i <= j <= v.len(),
            strip == white_space(),
            start == v@.skip(i as int),
            trim_end_where(start, strip) == trim_end_where(start.take(j - i), strip),
        decreases j,
    {
        proof {
            lemma_trim_end_step(start, (j - i) as int, strip);
        }
        j = j - 1;
    }
    assert(trim_end_where(start.take(j - i), strip) == start.take(j - i));
    let mut r: Vec<char> = Vec::new();
    let mut k: usize = i;
    while k < j
        invariant
            i <= k <= j <= v.len(),
            r@ == v@.subrange(i as int, k as int),
        decreases j - k,
    {
        r.push(v[k]);
        k = k + 1;
    }
    assert(r@ =~= start.take(j - i));
    r
}

/// `text` without white space at either end (`str::trim`).
pub fn trim(text: &str) -> (r: String)
    ensures
        r@ == trim_ws(text@),
{
    let v = chars_of(text);
    let t = trim_chars(v.as_slice());
    string_of(t.as_slice())
}

/// Whether `text` holds nothing but white space.
pub fn is_blank(text: &str) -> (b: bool)
    ensures
        b == (trim_ws(text@).len() == 0),
{
    let v = chars_of(text);
    let t = trim_chars(v.as_slice());
    t.len() == 0
}


/// The white-space separated words of `s`, in order, as `str::split_whitespace`
/// yields them: maximal runs of characters that are not white space.
pub open spec fn words(s: Seq<char>) -> Seq<Seq<char>>
    decreases s.len(),
{
    if s.len() == 0 {
        seq![]
    } else {
        let prev = words(s.drop_last());
        let c = s.last();
        if is_white_space(c) {
            prev
        } else if s.len() >= 2 && !is_white_space(s[s.len() - 2]) {
            prev.update(prev.len() - 1, prev.last().push(c))
        } else {
            prev.push(seq![c])
        }
    }
}

/// A text whose last character is not white space has at least one word.
proof fn lemma_words_nonempty(s: Seq<char>)
    requires
        s.len() > 0,
        !is_white_space(s.last()),
    ensures
        words(s).len() > 0,
    decreases s.len(),
{
    if s.len() >= 2 && !is_white_space(s[s.len() - 2]) {
        lemma_words_nonempty(s.drop_last());
    }
}

/// Every word is non-empty and free of white space.
pub proof fn lemma_words_well_formed(s: Seq<char>)
    ensures
        forall|k: int|
            0 <= k < words(s).len() ==> #[trigger] words(s)[k].len() > 0 && forall|m: int|
                0 <= m < words(s)[k].len() ==> !is_white_space(#[trigger] words(s)[k][m]),
    decreases s.len(),
{
    if s.len() > 0 {
        lemma_words_well_formed(s.drop_last());
        if !is_white_space(s.last()) && s.len() >= 2 && !is_white_space(s[s.len() - 2]) {
            lemma_words_nonempty(s.drop_last());
        }
        let w = words(s);
        let prev = words(s.drop_last());
        assert forall|k: int| 0 <= k < w.len() implies #[trigger] w[k].len() > 0 && forall|m: int|
            0 <= m < w[k].len() ==> !is_white_space(#[trigger] w[k][m]) by {
            if k < prev.len() {
                assert(prev[k].len() > 0);
                assert forall|m: int| 0 <= m < w[k].len() implies !is_white_space(w[k][m]) by {
                    if k == prev.len() - 1 && w[k] != prev[k] {
                        if m < prev[k].len() {
                            assert(w[k][m] == prev[k][m]);
                        }
                    } else {
                        assert(prev[k][m] == w[k][m]);
                    }
                }
            }
        }
    }
}

/// The character sequences held by a list of character vectors.
pub open spec fn views(v: Seq<Vec<char>>) -> Seq<Seq<char>> {
    v.map_values(|w: Vec<char>| w@)
}

/// The character sequences held by a list of strings.
pub open spec fn string_views(v: Seq<String>) -> Seq<Seq<char>> {
    v.map_values(|s: String| s@)
}

/// The words of `v`, as `str::split_whitespace` yields them.
pub fn split_words(v: &[char]) -> (r: Vec<Vec<char>>)
    ensures
        views(r@) == words(v@),
{
    let mut out: Vec<Vec<char>> = Vec::new();
    let mut cur: Vec<char> = Vec::new();
    let mut in_word = false;
    let mut i: usize = 0;
    assert(v@.take(0) =~= Seq::<char>::empty());
    while i < v.len()
        invariant
            i <= v.len(),
            in_word == (i > 0 && !is_white_space(v@[i - 1])),
            in_word ==> words(v@.take(i as int)) == views(out@).push(cur@),
            !in_word ==> words(v@.take(i as int)) == views(out@),
        decreases v.len() - i,
    {
        let c = v[i];
        let ghost before = v@.take(i as int);
        let ghost after = v@.take(i + 1);
        assert(after.drop_last() =~= before);
        assert(after.last() == c);
        if is_whitespace_char(c) {
            if in_word {
                let ghost prev_dv = views(out@);
                let done = cur;
                let ghost done_view = done@;
                out.push(done);
                cur = Vec::new();
                assert(views(out@) =~= prev_dv.push(done_view));
            }
            in_word = false;
        } else {
            if in_word {
                assert(after[after.len() - 2] == v@[i - 1]);
                cur.push(c);
                assert(words(after) =~= views(out@).push(cur@));
            } else {
                cur = Vec::new();
                cur.push(c);
                assert(words(after) =~= views(out@).push(cur@));
            }
            in_word = true;
        }
        i = i + 1;
    }
    let ghost last_dv = views(out@);
    let ghost last_word = cur@;
    if in_word {
        out.push(cur);
        assert(views(out@) =~= last_dv.push(last_word));
    }
    assert(v@.take(v.len() as int) =~= v@);
    out
}

/// The pieces of `ws` in order with `sep` between consecutive pieces.
pub open spec fn join_with(ws: Seq<Seq<char>>, sep: Seq<char>) -> Seq<char>
    decreases ws.len(),
{
    if ws.len() == 0 {
        seq![]
    } else if ws.len() == 1 {
        ws[0]
    } else {
        join_with(ws.drop_last(), sep) + sep + ws.last()
    }
}

/// A word: non-empty and free of white space.
pub open spec fn is_word(w: Seq<char>) -> bool {
    w.len() > 0 && forall|m: int| 0 <= m < w.len() ==> !is_white_space(#[trigger] w[m])
}

/// Appending a word after white space (or at the start) adds it as a new word.
proof fn lemma_words_append_word(p: Seq<char>, w: Seq<char>, k: int)
    requires
        p.len() == 0 || is_white_space(p.last()),
        is_word(w),
        1 <= k <= w.len(),
    ensures
        words(p + w.take(k)) == words(p).push(w.take(k)),
    decreases k,
{
    let s = p + w.take(k);
    assert(s.drop_last() =~= p + w.take(k - 1));
    assert(s.last() == w[k - 1]);
    if k == 1 {
        assert(w.take(0) =~= Seq::<char>::empty());
        assert(p + w.take(0) =~= p);
        assert(w.take(1) =~= seq![w[0]]);
        if s.len() >= 2 {
            assert(s[s.len() - 2] == p.last());
        }
    } else {
        lemma_words_append_word(p, w, k - 1);
        assert(s[s.len() - 2] == w[k - 2]);
        let prev = words(p).push(w.take(k - 1));
        assert(w.take(k - 1).push(w[k - 1]) =~= w.take(k));
        assert(prev.last() == w.take(k - 1));
        assert(prev.update(prev.len() - 1, prev.last().push(w[k - 1])) =~= words(p).push(w.take(k)));
    }
}

/// Splitting words joined by single spaces gives the words back.
pub proof fn law_words_of_joined(ws: Seq<Seq<char>>)
    requires
        forall|k: int| 0 <= k < ws.len() ==> is_word(#[trigger] ws[k]),
    ensures
        words(join_with(ws, seq![' '])) == ws,
    decreases ws.len(),
{
    if ws.len() == 1 {
        lemma_words_append_word(Seq::<char>::empty(), ws[0], ws[0].len() as int);
        assert(Seq::<char>::empty() + ws[0].take(ws[0].len() as int) =~= ws[0]);
        assert(words(Seq::<char>::empty()).push(ws[0]) =~= ws);
    } else if ws.len() > 1 {
        let front = ws.drop_last();
        assert forall|k: int| 0 <= k < front.len() implies is_word(#[trigger] front[k]) by {
            assert(front[k] == ws[k]);
        }
        law_words_of_joined(front);
        let j = join_with(front, seq![' ']);
        let p = j + seq![' '];
        assert(p.drop_last() =~= j);
        assert(words(p) == words(j));
        let last = ws.last();
        assert(is_word(ws[ws.len() - 1]));
        lemma_words_append_word(p, last, last.len() as int);
        assert(last.take(last.len() as int) =~= last);
        assert(front.push(last) =~= ws);
    }
}

/// Appends the characters of `src` to `dst`.
pub fn append_chars(dst: &mut Vec<char>, src: &[char])
    ensures
        final(dst)@ == old(dst)@ + src@,
{
    let mut k: usize = 0;
    while k < src.len()
        invariant
            k <= src.len(),
            dst@ == old(dst)@ + src@.take(k as int),
        decreases src.len() - k,
    {
        dst.push(src[k]);
        assert(src@.take(k as int).push(src@[k as int]) =~= src@.take(k + 1));
        k = k + 1;
    }
    assert(src@.take(src.len() as int) =~= src@);
}

/// The pieces of `ws` joined with single spaces (`[..].join(" ")`).
pub fn join_spaced(ws: &Vec<Vec<char>>) -> (r: Vec<char>)
    ensures
        r@ == join_with(views(ws@), seq![' ']),
{
    let mut r: Vec<char> = Vec::new();
    let mut i: usize = 0;
    let ghost dv = views(ws@);
    while i < ws.len()
        invariant
            i <= ws.len(),
            dv == views(ws@),
            r@ == join_with(dv.take(i as int), seq![' ']),
        decreases ws.len() - i,
    {
        assert(dv.take(i + 1).drop_last() =~= dv.take(i as int));
        if i > 0 {
            r.push(' ');
        }
        append_chars(&mut r, ws[i].as_slice());
        proof {
            if i == 0 {
                assert(r@ =~= dv.take(1)[0]);
            } else {
                assert(r@ =~= join_with(dv.take(i as int), seq![' ']) + seq![' '] + dv[i as int]);
            }
        }
        i = i + 1;
    }
    assert(dv.take(ws.len() as int) =~= dv);
    r
}

/// `s` with every non-overlapping occurrence of `from`, scanned left to
/// right, replaced by `to`, as `str::replace` does; an empty `from` matches
/// before every character and at the end.
pub open spec fn replace_every(s: Seq<char>, from: Seq<char>, to: Seq<char>) -> Seq<char>
    decreases s.len(),
{
    if from.len() == 0 {
        if s.len() == 0 {
            to
        } else {
            to + seq![s[0]] + replace_every(s.drop_first(), from, to)
        }
    } else if s.len() < from.len() {
        s
    } else if s.take(from.len() as int) == from {
        to + replace_every(s.skip(from.len() as int), from, to)
    } else {
        seq![s[0]] + replace_every(s.drop_first(), from, to)
    }
}

/// Replacing a text whose first character does not occur changes nothing.
proof fn lemma_replace_absent(x: Seq<char>, from: Seq<char>, to: Seq<char>)
    requires
        from.len() > 0,
        !x.contains(from[0]),
    ensures
        replace_every(x, from, to) == x,
    decreases x.len(),
{
    if x.len() >= from.len() {
        assert(x.take(from.len() as int)[0] == x[0]);
        assert(x.take(from.len() as int) != from);
        assert forall|k: int| 0 <= k < x.drop_first().len() implies x.drop_first()[k] != from[0] by {
            assert(x.drop_first()[k] == x[k + 1]);
        }
        lemma_replace_absent(x.drop_first(), from, to);
        assert(seq![x[0]] + x.drop_first() =~= x);
    }
}

/// Replacing `from` by `to` in `c` followed by `y`, where `c` is not the first
/// character of `from`, keeps `c` and goes on in `y`.
proof fn lemma_replace_skips(c: char, y: Seq<char>, from: Seq<char>, to: Seq<char>)
    requires
        from.len() > 0,
        c != from[0],
    ensures
        replace_every(seq![c] + y, from, to) == seq![c] + replace_every(y, from, to),
{
    let x = seq![c] + y;
    assert(x.drop_first() =~= y);
    if x.len() >= from.len() {
        assert(x.take(from.len() as int)[0] == c);
    } else {
        assert(replace_every(y, from, to) == y);
    }
}

/// Setting aside every occurrence of `m` behind the marker `ph` and then
/// putting `m` back for every `ph` gives the text back, as long as the
/// marker's first character does not occur in the text.
pub proof fn law_replace_round_trip(t: Seq<char>, m: Seq<char>, ph: Seq<char>)
    requires
        ph.len() > 0,
        !t.contains(ph[0]),
    ensures
        replace_every(replace_every(t, m, ph), ph, m) == t,
    decreases t.len(),
{
    let f = replace_every(t, m, ph);
    if m.len() == 0 {
        if t.len() == 0 {
            assert(ph.take(ph.len() as int) =~= ph);
            assert(ph.skip(ph.len() as int) =~= Seq::<char>::empty());
            assert(replace_every(Seq::<char>::empty(), ph, m) == Seq::<char>::empty());
        } else {
            lemma_not_contains_tail(t, ph[0]);
            law_replace_round_trip(t.drop_first(), m, ph);
            let rest = seq![t[0]] + replace_every(t.drop_first(), m, ph);
            assert(f =~= ph + rest);
            assert((ph + rest).take(ph.len() as int) =~= ph);
            assert((ph + rest).skip(ph.len() as int) =~= rest);
            lemma_replace_skips(t[0], replace_every(t.drop_first(), m, ph), ph, m);
            assert(m + (seq![t[0]] + t.drop_first()) =~= t);
        }
    } else if t.len() < m.len() {
        lemma_replace_absent(t, ph, m);
    } else if t.take(m.len() as int) == m {
        assert forall|k: int| 0 <= k < t.skip(m.len() as int).len() implies t.skip(m.len() as int)[k]
            != ph[0] by {
            assert(t.skip(m.len() as int)[k] == t[k + m.len()]);
        }
        law_replace_round_trip(t.skip(m.len() as int), m, ph);
        let rest = replace_every(t.skip(m.len() as int), m, ph);
        assert((ph + rest).take(ph.len() as int) =~= ph);
        assert((ph + rest).skip(ph.len() as int) =~= rest);
        assert(m + t.skip(m.len() as int) =~= t);
    } else {
        lemma_not_contains_tail(t, ph[0]);
        law_replace_round_trip(t.drop_first(), m, ph);
        lemma_replace_skips(t[0], replace_every(t.drop_first(), m, ph), ph, m);
        assert(seq![t[0]] + t.drop_first() =~= t);
    }
}

/// A character missing from a text is missing from its tail.
proof fn lemma_not_contains_tail(t: Seq<char>, c: char)
    requires
        t.len() > 0,
        !t.contains(c),
    ensures
        !t.drop_first().contains(c),
        t[0] != c,
{
    assert forall|k: int| 0 <= k < t.drop_first().len() implies t.drop_first()[k] != c by {
        assert(t.drop_first()[k] == t[k + 1]);
    }
}

/// Whether `pat` occurs in `s` at position `i`.
pub fn occurs_at(s: &[char], i: usize, pat: &[char]) -> (b: bool)
    requires
        i <= s.len(),
    ensures
        b == (i + pat.len() <= s.len() && s@.subrange(i as int, i + pat.len()) == pat@),
{
    if pat.len() > s.len() - i {
        return false;
    }
    let mut k: usize = 0;
    while k < pat.len()
        invariant
            k <= pat.len(),
            i + pat.len() <= s.len(),
            s@.subrange(i as int, i + k) == pat@.take(k as int),
        decreases pat.len() - k,
    {
        if s[i + k] != pat[k] {
            assert(s@.subrange(i as int, i + pat.len())[k as int] != pat@[k as int]);
            return false;
        }
        assert(s@.subrange(i as int, i + k + 1) =~= pat@.take(k + 1));
        k = k + 1;
    }
    assert(pat@.take(pat.len() as int) =~= pat@);
    true
}

/// `s` with every occurrence of `from` replaced by `to` (`str::replace`).
pub fn replace_chars(s: &[char], from: &[char], to: &[char]) -> (r: Vec<char>)
    ensures
        r@ == replace_every(s@, from@, to@),
{
    let mut out: Vec<char> = Vec::new();
    let mut i: usize = 0;
    assert(s@.skip(0) =~= s@);
    while i < s.len()
        invariant
            i <= s.len(),
            replace_every(s@, from@, to@) == out@ + replace_every(s@.skip(i as int), from@, to@),
        decreases s.len() - i,
    {
        let ghost rest = s@.skip(i as int);
        if from.len() == 0 {
            append_chars(&mut out, to);
            out.push(s[i]);
            assert(rest.drop_first() =~= s@.skip(i + 1));
            i = i + 1;
        } else if occurs_at(s, i, from) {
            assert(rest.take(from.len() as int) =~= s@.subrange(i as int, i + from.len()));
            assert(rest.skip(from.len() as int) =~= s@.skip(i + from.len()));
            append_chars(&mut out, to);
            i = i + from.len();
        } else {
            proof {
                if rest.len() >= from.len() {
                    assert(rest.take(from.len() as int) =~= s@.subrange(i as int, i + from.len()));
                    assert(rest.drop_first() =~= s@.skip(i + 1));
                } else {
                    assert(replace_every(rest, from@, to@) == rest);
                    let tail = s@.skip(i + 1);
                    assert(tail.len() < from.len());
                    assert(rest =~= seq![s@[i as int]] + tail);
                }
            }
            out.push(s[i]);
            i = i + 1;
        }
    }
    if from.len() == 0 {
        append_chars(&mut out, to);
    }
    out
}

/// `text` with every occurrence of `from` replaced by `to` (`str::replace`).
pub fn replace(text: &str, from: &str, to: &str) -> (r: String)
    ensures
        r@ == replace_every(text@, from@, to@),
{
    let s = chars_of(text);
    let f = chars_of(from);
    let t = chars_of(to);
    let r = replace_chars(s.as_slice(), f.as_slice(), t.as_slice());
    string_of(r.as_slice())
}

/// Whether `a` and `b` hold the same characters.
pub fn same_chars(a: &[char], b: &[char]) -> (eq: bool)
    ensures
        eq == (a@ == b@),
{
    if a.len() != b.len() {
        return false;
    }
    assert(a@.subrange(0, b@.len() as int) =~= a@);
    occurs_at(a, 0, b)
}

/// The decimal digit for `d < 10`.
pub open spec fn digit_char(d: nat) -> char {
    seq!['0', '1', '2', '3', '4', '5', '6', '7', '8', '9'][d as int]
}

/// The decimal rendering of `n`, without leading zeros (`{}` formatting).
pub open spec fn decimal(n: nat) -> Seq<char>
    decreases n,
{
    if n < 10 {
        seq![digit_char(n)]
    } else {
        decimal(n / 10).push(digit_char(n % 10))
    }
}

/// Whether `c` is one of the ten decimal digits.
pub open spec fn is_digit(c: char) -> bool {
    '0' <= c <= '9'
}

/// The digit for `d` is a digit, and digits for different values differ.
pub proof fn lemma_digit_char(d: nat)
    requires
        d < 10,
    ensures
        is_digit(digit_char(d)),
        digit_char(d) as int == '0' as int + d,
{
    if d == 0 {
    } else if d == 1 {
    } else if d == 2 {
    } else if d == 3 {
    } else if d == 4 {
    } else if d == 5 {
    } else if d == 6 {
    } else if d == 7 {
    } else if d == 8 {
    } else {
    }
}

/// A decimal rendering is not empty and holds digits only.
pub proof fn lemma_decimal_digits(n: nat)
    ensures
        decimal(n).len() >= 1,
        forall|i: int| 0 <= i < decimal(n).len() ==> is_digit(#[trigger] decimal(n)[i]),
    decreases n,
{
    lemma_digit_char(n % 10);
    if n >= 10 {
        lemma_decimal_digits(n / 10);
        assert forall|i: int| 0 <= i < decimal(n).len() implies is_digit(#[trigger] decimal(n)[i]) by {
            if i < decimal(n / 10).len() {
                assert(decimal(n)[i] == decimal(n / 10)[i]);
            }
        }
    }
}

/// Different numbers have different decimal renderings.
pub proof fn law_decimal_injective(a: nat, b: nat)
    requires
        decimal(a) == decimal(b),
    ensures
        a == b,
    decreases a,
{
    lemma_digit_char(a % 10);
    lemma_digit_char(b % 10);
    if a < 10 && b < 10 {
        assert(decimal(a)[0] == digit_char(a));
        assert(decimal(b)[0] == digit_char(b));
        assert(a % 10 == a && b % 10 == b);
    } else if a < 10 {
        lemma_decimal_digits(b / 10);
        assert(decimal(b).len() >= 2);
    } else if b < 10 {
        lemma_decimal_digits(a / 10);
        assert(decimal(a).len() >= 2);
    } else {
        let da = decimal(a);
        assert(da.last() == digit_char(a % 10));
        assert(decimal(b).last() == digit_char(b % 10));
        assert(decimal(a / 10) =~= da.drop_last());
        assert(decimal(b / 10) =~= decimal(b).drop_last());
        law_decimal_injective(a / 10, b / 10);
        assert(a % 10 == b % 10);
        assert(a == 10 * (a / 10) + a % 10);
        assert(b == 10 * (b / 10) + b % 10);
    }
}

/// Appends the decimal rendering of `n` to `out`.
pub fn push_decimal(out: &mut Vec<char>, n: u64)
    ensures
        final(out)@ == old(out)@ + decimal(n as nat),
    decreases n,
{
    if n >= 10 {
        push_decimal(out, n / 10);
    }
    let digits = ['0', '1', '2', '3', '4', '5', '6', '7', '8', '9'];
    let d: usize = (n % 10) as usize;
    out.push(digits[d]);
    assert(digits@ =~= seq!['0', '1', '2', '3', '4', '5', '6', '7', '8', '9']);
    if n >= 10 {
        assert(old(out)@ + decimal(n as nat) =~= old(out)@ + decimal((n / 10) as nat) + seq![digit_char(d as nat)]);
    } else {
        assert(decimal(n as nat) =~= seq![digit_char(d as nat)]);
    }
}


/// The character sequences of a list of (long, short) phrase pairs.
pub open spec fn pair_views(v: Seq<(&str, &str)>) -> Seq<(Seq<char>, Seq<char>)> {
    v.map_values(|p: (&str, &str)| (p.0@, p.1@))
}

/// `s` after replacing, pair by pair and in order, every occurrence of each
/// pair's first text by its second.
pub open spec fn replace_each(s: Seq<char>, pairs: Seq<(Seq<char>, Seq<char>)>) -> Seq<char>
    decreases pairs.len(),
{
    if pairs.len() == 0 {
        s
    } else {
        replace_each(replace_every(s, pairs[0].0, pairs[0].1), pairs.drop_first())
    }
}

/// A text no longer than `f` and other than it has nothing to replace.
pub proof fn lemma_replace_not_longer(x: Seq<char>, f: Seq<char>, to: Seq<char>)
    requires
        f.len() > 0,
        x.len() <= f.len(),
        x != f,
    ensures
        replace_every(x, f, to) == x,
{
    if x.len() == f.len() {
        assert(x.take(f.len() as int) =~= x);
        assert(replace_every(x.drop_first(), f, to) == x.drop_first());
        assert(seq![x[0]] + x.drop_first() =~= x);
    }
}

/// A whole text replaced by `to` is `to`.
pub proof fn lemma_replace_whole(x: Seq<char>, to: Seq<char>)
    requires
        x.len() > 0,
    ensures
        replace_every(x, x, to) == to,
{
    assert(x.take(x.len() as int) =~= x);
    assert(x.skip(x.len() as int) =~= Seq::<char>::empty());
    assert(replace_every(Seq::<char>::empty(), x, to) == Seq::<char>::empty());
    assert(to + Seq::<char>::empty() =~= to);
}

/// A text that every pair's first text outlasts or differs from in length
/// and content passes through all the pairs unchanged.
pub proof fn lemma_replace_each_fixed(y: Seq<char>, pairs: Seq<(Seq<char>, Seq<char>)>)
    requires
        forall|j: int|
            0 <= j < pairs.len() ==> #[trigger] pairs[j].0.len() > 0 && pairs[j].0.len() >= y.len() && pairs[j].0
                != y,
    ensures
        replace_each(y, pairs) == y,
    decreases pairs.len(),
{
    if pairs.len() > 0 {
        assert(pairs[0].0.len() > 0 && pairs[0].0.len() >= y.len() && pairs[0].0 != y);
        lemma_replace_not_longer(y, pairs[0].0, pairs[0].1);
        let rest = pairs.drop_first();
        assert forall|j: int| 0 <= j < rest.len() implies #[trigger] rest[j].0.len() > 0 && rest[j].0.len()
            >= y.len() && rest[j].0 != y by {
            assert(rest[j] == pairs[j + 1]);
        }
        lemma_replace_each_fixed(y, rest);
    }
}

/// Applying pairs that come longest first, where no first text equals a
/// replacement or is shorter than one, to a text that is exactly the first
/// text of the pair `i` gives that pair's replacement.
pub proof fn lemma_replace_each_phrase(pairs: Seq<(Seq<char>, Seq<char>)>, i: int)
    requires
        0 <= i < pairs.len(),
        pairs[i].0.len() > 0,
        forall|j: int|
            0 <= j < i ==> #[trigger] pairs[j].0.len() >= pairs[i].0.len() && pairs[j].0 != pairs[i].0,
        forall|j: int|
            i < j < pairs.len() ==> #[trigger] pairs[j].0.len() > 0 && pairs[j].0.len() >= pairs[i].1.len()
                && pairs[j].0 != pairs[i].1,
    ensures
        replace_each(pairs[i].0, pairs) == pairs[i].1,
    decreases i,
{
    let x = pairs[i].0;
    let rest = pairs.drop_first();
    if i == 0 {
        lemma_replace_whole(x, pairs[0].1);
        assert forall|j: int| 0 <= j < rest.len() implies #[trigger] rest[j].0.len() > 0 && rest[j].0.len()
            >= pairs[0].1.len() && rest[j].0 != pairs[0].1 by {
            assert(rest[j] == pairs[j + 1]);
        }
        lemma_replace_each_fixed(pairs[0].1, rest);
    } else {
        assert(pairs[0].0.len() >= x.len() && pairs[0].0 != x);
        lemma_replace_not_longer(x, pairs[0].0, pairs[0].1);
        assert(rest[i - 1] == pairs[i]);
        assert forall|j: int| 0 <= j < i - 1 implies #[trigger] rest[j].0.len() >= rest[i - 1].0.len() && rest[j].0
            != rest[i - 1].0 by {
            assert(rest[j] == pairs[j + 1]);
        }
        assert forall|j: int| i - 1 < j < rest.len() implies #[trigger] rest[j].0.len() > 0 && rest[j].0.len()
            >= rest[i - 1].1.len() && rest[j].0 != rest[i - 1].1 by {
            assert(rest[j] == pairs[j + 1]);
        }
        lemma_replace_each_phrase(rest, i - 1);
    }
}

/// Applies every pair of `pairs` to `s` in turn with [`replace_chars`].
pub fn replace_pairs(s: &[char], pairs: &Vec<(&str, &str)>) -> (r: Vec<char>)
    ensures
        r@ == replace_each(s@, pair_views(pairs@)),
{
    let ghost all = pair_views(pairs@);
    let mut acc: Vec<char> = copy_chars(s);
    let mut i: usize = 0;
    assert(all.skip(0) =~= all);
    while i < pairs.len()
        invariant
            i <= pairs.len(),
            all == pair_views(pairs@),
            replace_each(s@, all) == replace_each(acc@, all.skip(i as int)),
        decreases pairs.len() - i,
    {
        let (from, to) = pairs[i];
        let f = chars_of(from);
        let t = chars_of(to);
        let next = replace_chars(acc.as_slice(), f.as_slice(), t.as_slice());
        assert(all.skip(i as int).drop_first() =~= all.skip(i + 1));
        assert(all.skip(i as int)[0] == (from@, to@));
        acc = next;
        i = i + 1;
    }
    acc
}

/// A fresh vector with the characters of `v`.
pub fn copy_chars(v: &[char]) -> (r: Vec<char>)
    ensures
        r@ == v@,
{
    let mut r: Vec<char> = Vec::new();
    append_chars(&mut r, v);
    r
}


/// Number of bytes of the UTF-8 encoding of `s`.
pub open spec fn utf8_len(s: Seq<char>) -> nat {
    vstd::utf8::encode_utf8(s).len()
}

/// The number of bytes `c` takes in UTF-8.
pub fn utf8_width(c: char) -> (w: usize)
    ensures
        w == vstd::utf8::encode_scalar(c as u32).len(),
        1 <= w <= 4,
{
    let u: u32 = c as u32;
    if u < 0x80 {
        1
    } else if u < 0x800 {
        2
    } else if u < 0x10000 {
        3
    } else {
        4
    }
}

/// Whether the UTF-8 encoding of `v` is longer than three bytes.
pub fn longer_than_three_bytes(v: &[char]) -> (b: bool)
    ensures
        b == (utf8_len(v@) > 3),
{
    let mut total: usize = 0;
    let mut i: usize = 0;
    assert(v@.skip(0) =~= v@);
    while i < v.len()
        invariant
            i <= v.len(),
            total <= 3,
            utf8_len(v@) == total + utf8_len(v@.skip(i as int)),
        decreases v.len() - i,
    {
        let ghost rest = v@.skip(i as int);
        assert(rest.drop_first() =~= v@.skip(i + 1));
        assert(rest[0] == v@[i as int]);
        total = total + utf8_width(v[i]);
        i = i + 1;
        if total > 3 {
            return true;
        }
    }
    false
}


/// The first texts of the pairs `t` come longest first, by UTF-8 byte length.
pub open spec fn keys_longest_first(t: Seq<(Seq<char>, Seq<char>)>) -> bool {
    forall|i: int, j: int|
        0 <= i < j < t.len() ==> utf8_len(#[trigger] t[i].0) >= utf8_len(#[trigger] t[j].0)
}

/// A text of ASCII characters takes one byte per character.
pub(crate) proof fn lemma_ascii_utf8_len(s: Seq<char>)
    requires
        forall|k: int| 0 <= k < s.len() ==> (s[k] as u32) < 0x80,
    ensures
        utf8_len(s) == s.len(),
    decreases s.len(),
{
    if s.len() > 0 {
        assert forall|k: int| 0 <= k < s.drop_first().len() implies (s.drop_first()[k] as u32) < 0x80 by {
            assert(s.drop_first()[k] == s[k + 1]);
        }
        lemma_ascii_utf8_len(s.drop_first());
    }
}

/// Pairs whose first texts have the given non-increasing byte lengths come longest first.
pub(crate) proof fn lemma_keys_longest_first(t: Seq<(Seq<char>, Seq<char>)>, lens: Seq<nat>)
    requires
        t.len() == lens.len(),
        forall|i: int| 0 <= i < t.len() ==> utf8_len(#[trigger] t[i].0) == lens[i],
        forall|i: int, j: int| 0 <= i < j < lens.len() ==> lens[i] >= lens[j],
    ensures
        keys_longest_first(t),
{
    assert forall|i: int, j: int| 0 <= i < j < t.len() implies utf8_len(#[trigger] t[i].0) >= utf8_len(
        #[trigger] t[j].0,
    ) by {
        assert(utf8_len(t[i].0) == lens[i]);
        assert(utf8_len(t[j].0) == lens[j]);
    }
}


/// No two pairs of `t` share their first text.
pub open spec fn keys_distinct(t: Seq<(Seq<char>, Seq<char>)>) -> bool {
    forall|i: int, j: int| 0 <= i < j < t.len() ==> #[trigger] t[i].0 != #[trigger] t[j].0
}

/// The length and first four characters of a text.
pub open spec fn key_code(s: Seq<char>) -> (nat, char, char, char, char) {
    (s.len(), s[0], s[1], s[2], s[3])
}

/// Pairs whose first texts have pairwise different codes have pairwise different first texts.
pub(crate) proof fn lemma_keys_distinct(
    t: Seq<(Seq<char>, Seq<char>)>,
    codes: Seq<(nat, char, char, char, char)>,
)
    requires
        t.len() == codes.len(),
        forall|i: int| 0 <= i < t.len() ==> key_code(#[trigger] t[i].0) == codes[i],
        forall|i: int, j: int| 0 <= i < j < codes.len() ==> codes[i] != codes[j],
    ensures
        keys_distinct(t),
{
    assert forall|i: int, j: int| 0 <= i < j < t.len() implies #[trigger] t[i].0 != #[trigger] t[j].0 by {
        assert(key_code(t[i].0) == codes[i]);
        assert(key_code(t[j].0) == codes[j]);
    }
}

} // verus!
