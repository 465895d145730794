//! Texts laid out as their own characters and numbered set-aside items, and
//! what `replace_every` does to them when the items are written as bracketed
//! placeholders such as `__URL_0__`.

use vstd::prelude::*;
use crate::text::replace_every;

verus! {

/// Whether `x` holds `_` at `i` and at `i + 1`.
pub open spec fn doubled_at(x: Seq<char>, i: int) -> bool {
    x[i] == '_' && x[i + 1] == '_'
}

/// Whether `x` holds no two `_` in a row.
pub open spec fn no_doubled(x: Seq<char>) -> bool {
    forall|i: int| 0 <= i < x.len() - 1 ==> !#[trigger] doubled_at(x, i)
}

/// Whether `y` occurs in `x`.
pub open spec fn has_sub(x: Seq<char>, y: Seq<char>) -> bool {
    exists|i: int| 0 <= i <= x.len() - y.len() && #[trigger] x.subrange(i, i + y.len()) == y
}

/// Whether `x` begins with `f`.
pub open spec fn starts_with(x: Seq<char>, f: Seq<char>) -> bool {
    f.len() <= x.len() && x.take(f.len() as int) == f
}

/// Whether `f` is written `__name__`: a non-empty name between two pairs of
/// `_`, with no two `_` in a row inside.
pub open spec fn bracketed(f: Seq<char>) -> bool {
    &&& f.len() >= 5
    &&& f[0] == '_'
    &&& f[1] == '_'
    &&& f[f.len() - 2] == '_'
    &&& f[f.len() - 1] == '_'
    &&& no_doubled(f.subrange(1, f.len() - 1))
}

/// The name of a bracketed text, without its two pairs of `_`.
pub open spec fn inner(f: Seq<char>) -> Seq<char> {
    f.subrange(2, f.len() - 2)
}

/// Inside a bracketed text, no two `_` stand in a row.
pub proof fn lemma_bracketed_interior(f: Seq<char>, i: int)
    requires
        bracketed(f),
        1 <= i <= f.len() - 3,
    ensures
        !doubled_at(f, i),
{
    let sub = f.subrange(1, f.len() - 1);
    assert(!doubled_at(sub, i - 1));
    assert(sub[i - 1] == f[i] && sub[i] == f[i + 1]);
}

/// No two `_` in a row in `a + b` means none in `a` and none in `b`.
pub proof fn lemma_no_doubled_parts(a: Seq<char>, b: Seq<char>)
    requires
        no_doubled(a + b),
    ensures
        no_doubled(a),
        no_doubled(b),
{
    let x = a + b;
    assert forall|i: int| 0 <= i < a.len() - 1 implies !#[trigger] doubled_at(a, i) by {
        assert(!doubled_at(x, i));
    }
    assert forall|i: int| 0 <= i < b.len() - 1 implies !#[trigger] doubled_at(b, i) by {
        assert(!doubled_at(x, i + a.len()));
    }
}

/// What does not occur in `a + b` occurs neither in `a` nor in `b`.
pub proof fn lemma_no_sub_parts(a: Seq<char>, b: Seq<char>, y: Seq<char>)
    requires
        !has_sub(a + b, y),
    ensures
        !has_sub(a, y),
        !has_sub(b, y),
{
    let x = a + b;
    if has_sub(a, y) {
        let i = choose|i: int| 0 <= i <= a.len() - y.len() && #[trigger] a.subrange(i, i + y.len()) == y;
        assert(x.subrange(i, i + y.len()) =~= a.subrange(i, i + y.len()));
    }
    if has_sub(b, y) {
        let i = choose|i: int| 0 <= i <= b.len() - y.len() && #[trigger] b.subrange(i, i + y.len()) == y;
        assert(x.subrange(i + a.len(), i + a.len() + y.len()) =~= b.subrange(i, i + y.len()));
    }
}

/// What follows a text: nothing, or a text beginning with `__`.
pub open spec fn opens_bracket_or_ends(z: Seq<char>) -> bool {
    z.len() == 0 || (z.len() >= 2 && z[0] == '_' && z[1] == '_')
}

/// After `__`, the rest of a bracketed text cannot begin a text made of a
/// stretch without `__` and without its name, and what follows that stretch.
pub proof fn lemma_no_tail_start(f: Seq<char>, r: Seq<char>, z: Seq<char>)
    requires
        bracketed(f),
        no_doubled(r),
        !has_sub(r, inner(f)),
        opens_bracket_or_ends(z),
    ensures
        !starts_with(r + z, f.skip(2)),
{
    let b = inner(f);
    let g = f.skip(2);
    let x = r + z;
    if starts_with(x, g) {
        assert(x.take(g.len() as int) == g);
        if r.len() >= b.len() {
            assert(r.subrange(0, b.len() as int) =~= b) by {
                assert forall|j: int| 0 <= j < b.len() implies r.subrange(0, b.len() as int)[j] == b[j] by {
                    assert(x.take(g.len() as int)[j] == g[j]);
                }
            }
            assert(r.subrange(0, 0 + b.len() as int) == b);
            assert(has_sub(r, b));
        } else {
            let n = r.len() as int;
            assert(x.take(g.len() as int)[n] == g[n]);
            assert(g[n] == '_');
            if n == 0 {
                lemma_bracketed_interior(f, 1);
            } else if n + 1 < b.len() {
                assert(x.take(g.len() as int)[n + 1] == g[n + 1]);
                lemma_bracketed_interior(f, n + 2);
            } else {
                lemma_bracketed_interior(f, f.len() - 3);
            }
        }
    }
}

/// A bracketed text cannot begin inside a stretch without `__` and without
/// its name.
pub proof fn lemma_no_run_start(f: Seq<char>, r: Seq<char>, z: Seq<char>)
    requires
        bracketed(f),
        no_doubled(r),
        r.len() >= 1,
        opens_bracket_or_ends(z),
    ensures
        !starts_with(r + z, f),
{
    let x = r + z;
    if starts_with(x, f) {
        assert(x.take(f.len() as int)[0] == f[0]);
        assert(x.take(f.len() as int)[1] == f[1]);
        if r.len() >= 2 {
            assert(doubled_at(r, 0));
        } else {
            assert(x.take(f.len() as int)[2] == f[2]);
            lemma_bracketed_interior(f, 1);
        }
    }
}

/// A bracketed text begins no other bracketed text's place.
pub proof fn lemma_no_other_bracket_start(f: Seq<char>, m: Seq<char>, w: Seq<char>)
    requires
        bracketed(f),
        bracketed(m),
        f != m,
    ensures
        !starts_with(m + w, f),
{
    let x = m + w;
    if starts_with(x, f) {
        let t = x.take(f.len() as int);
        if f.len() <= m.len() {
            let n = f.len() as int;
            assert(t[n - 2] == f[n - 2] && t[n - 1] == f[n - 1]);
            assert(doubled_at(m, n - 2));
            if n - 2 <= m.len() - 3 {
                lemma_bracketed_interior(m, n - 2);
            } else {
                assert(f =~= m) by {
                    assert forall|j: int| 0 <= j < f.len() implies f[j] == m[j] by {
                        assert(t[j] == f[j]);
                    }
                }
            }
        } else {
            let n = m.len() as int;
            assert(t[n - 2] == f[n - 2] && t[n - 1] == f[n - 1]);
            lemma_bracketed_interior(f, n - 2);
        }
    }
}

/// A bracketed text begins nowhere inside another bracketed text, whatever
/// stretch without `__` and without its name follows.
pub proof fn lemma_no_bracket_start_inside(
    f: Seq<char>,
    m: Seq<char>,
    o: int,
    r: Seq<char>,
    z: Seq<char>,
)
    requires
        bracketed(f),
        bracketed(m),
        1 <= o < m.len(),
        no_doubled(r),
        !has_sub(r, inner(f)),
        opens_bracket_or_ends(z),
    ensures
        !starts_with(m.skip(o) + (r + z), f),
{
    let x = m.skip(o) + (r + z);
    if starts_with(x, f) {
        let t = x.take(f.len() as int);
        assert(t[0] == f[0] && t[1] == f[1]);
        if o <= m.len() - 3 {
            assert(doubled_at(m, o));
            lemma_bracketed_interior(m, o);
        } else if o == m.len() - 2 {
            assert(x.skip(2) =~= r + z);
            assert((r + z).take(f.skip(2).len() as int) =~= f.skip(2)) by {
                assert forall|j: int| 0 <= j < f.skip(2).len() implies (r + z)[j] == f.skip(2)[j] by {
                    assert(t[j + 2] == f[j + 2]);
                }
            }
            lemma_no_tail_start(f, r, z);
        } else {
            if r.len() == 0 {
                assert(x =~= seq!['_'] + z);
                assert(t[2] == f[2]);
                lemma_bracketed_interior(f, 1);
            } else {
                let r1 = r.skip(1);
                assert(r =~= r.take(1) + r1);
                lemma_no_doubled_parts(r.take(1), r1);
                lemma_no_sub_parts(r.take(1), r1, inner(f));
                assert(x.skip(2) =~= r1 + z);
                assert((r1 + z).take(f.skip(2).len() as int) =~= f.skip(2)) by {
                    assert forall|j: int| 0 <= j < f.skip(2).len() implies (r1 + z)[j] == f.skip(2)[j] by {
                        assert(t[j + 2] == f[j + 2]);
                    }
                }
                lemma_no_tail_start(f, r1, z);
            }
        }
    }
}

/// A text that holds no `__`, does not end in `_` and begins at a stretch
/// followed by a bracketed text lies within that stretch.
pub proof fn lemma_plain_start_in_run(f: Seq<char>, r: Seq<char>, z: Seq<char>)
    requires
        f.len() > 0,
        no_doubled(f),
        f.last() != '_',
        opens_bracket_or_ends(z),
        starts_with(r + z, f),
    ensures
        f.len() <= r.len(),
{
    let x = r + z;
    let t = x.take(f.len() as int);
    if f.len() > r.len() {
        let n = r.len() as int;
        assert(t[n] == f[n]);
        if n + 1 < f.len() {
            assert(t[n + 1] == f[n + 1]);
            assert(doubled_at(f, n));
        }
    }
}

/// A text that holds no `__`, neither begins nor ends with `_` and does not
/// occur in a bracketed text begins nowhere inside it.
pub proof fn lemma_plain_not_in_bracket(f: Seq<char>, m: Seq<char>, o: int, w: Seq<char>)
    requires
        f.len() > 0,
        no_doubled(f),
        f[0] != '_',
        f.last() != '_',
        bracketed(m),
        !has_sub(m, f),
        0 <= o < m.len(),
    ensures
        !starts_with(m.skip(o) + w, f),
{
    let x = m.skip(o) + w;
    if starts_with(x, f) {
        let t = x.take(f.len() as int);
        assert(t[0] == f[0]);
        if o + f.len() <= m.len() {
            assert(m.subrange(o, o + f.len()) =~= f) by {
                assert forall|j: int| 0 <= j < f.len() implies m.subrange(o, o + f.len())[j] == f[j] by {
                    assert(t[j] == f[j]);
                }
            }
            assert(has_sub(m, f));
        } else {
            let i = m.len() - 2 - o;
            assert(t[i] == f[i] && t[i + 1] == f[i + 1]);
            assert(doubled_at(f, i));
        }
    }
}

/// Replacing in `a + b` where nothing to replace begins inside `a` keeps `a`.
pub proof fn lemma_replace_keeps_prefix(a: Seq<char>, b: Seq<char>, f: Seq<char>, to: Seq<char>)
    requires
        f.len() > 0,
        forall|i: int| 0 <= i < a.len() ==> !#[trigger] starts_with((a + b).skip(i), f),
    ensures
        replace_every(a + b, f, to) == a + replace_every(b, f, to),
    decreases a.len(),
{
    if a.len() == 0 {
        assert(a + b =~= b);
    } else {
        let x = a + b;
        assert(x.skip(0) =~= x);
        assert(!starts_with(x.skip(0), f));
        lemma_replace_no_start(x, f, to);
        let a1 = a.drop_first();
        assert(x.drop_first() =~= a1 + b);
        assert forall|i: int| 0 <= i < a1.len() implies !#[trigger] starts_with((a1 + b).skip(i), f) by {
            assert((a1 + b).skip(i) =~= (a + b).skip(i + 1));
            assert(!starts_with((a + b).skip(i + 1), f));
        }
        lemma_replace_keeps_prefix(a1, b, f, to);
        assert(a =~= seq![a[0]] + a1);
    }
}

/// Where nothing to replace begins, the first character stays.
pub proof fn lemma_replace_no_start(x: Seq<char>, f: Seq<char>, to: Seq<char>)
    requires
        f.len() > 0,
        x.len() > 0,
        !starts_with(x, f),
    ensures
        replace_every(x, f, to) == seq![x[0]] + replace_every(x.drop_first(), f, to),
{
    if x.len() < f.len() {
        assert(replace_every(x.drop_first(), f, to) == x.drop_first());
        assert(seq![x[0]] + x.drop_first() =~= x);
    }
}

/// Where what is replaced begins, it gives way to its replacement.
pub proof fn lemma_replace_at_start(x: Seq<char>, f: Seq<char>, to: Seq<char>)
    requires
        f.len() > 0,
        starts_with(x, f),
    ensures
        replace_every(x, f, to) == to + replace_every(x.skip(f.len() as int), f, to),
{
}

/// One piece of a laid-out text: a character of its own, or the set-aside
/// item with the given number.
pub enum Piece {
    Chr(char),
    Itm(nat),
}

/// The text of a piece, an item written as `texts` gives it.
pub open spec fn piece_text(p: Piece, texts: Seq<Seq<char>>) -> Seq<char> {
    match p {
        Piece::Chr(c) => seq![c],
        Piece::Itm(k) => texts[k as int],
    }
}

/// The text of the pieces `ps`, each item written as `texts` gives it.
pub open spec fn render(ps: Seq<Piece>, texts: Seq<Seq<char>>) -> Seq<char>
    decreases ps.len(),
{
    if ps.len() == 0 {
        Seq::empty()
    } else {
        piece_text(ps[0], texts) + render(ps.drop_first(), texts)
    }
}

/// The piece holding the character `c`.
pub open spec fn chr_piece(c: char) -> Piece {
    Piece::Chr(c)
}

/// The characters of `s`, each as a piece of its own.
pub open spec fn char_pieces(s: Seq<char>) -> Seq<Piece> {
    Seq::new(s.len(), |i: int| chr_piece(s[i]))
}

/// Whether every item among `ps` has a number below `n`.
pub open spec fn items_below(ps: Seq<Piece>, n: nat) -> bool {
    forall|i: int| 0 <= i < ps.len() ==> (#[trigger] ps[i] matches Piece::Itm(k) ==> k < n)
}

/// Whether every text of `texts` is bracketed.
pub open spec fn all_bracketed(texts: Seq<Seq<char>>) -> bool {
    forall|k: int| 0 <= k < texts.len() ==> bracketed(#[trigger] texts[k])
}

/// How many pieces at the front of `ps` are characters.
pub open spec fn run_len(ps: Seq<Piece>) -> nat
    decreases ps.len(),
{
    if ps.len() == 0 || ps[0] is Itm {
        0
    } else {
        1 + run_len(ps.drop_first())
    }
}

/// The text of pieces put one after the other.
pub proof fn lemma_render_concat(a: Seq<Piece>, b: Seq<Piece>, texts: Seq<Seq<char>>)
    ensures
        render(a + b, texts) == render(a, texts) + render(b, texts),
    decreases a.len(),
{
    if a.len() == 0 {
        assert(a + b =~= b);
    } else {
        assert((a + b).drop_first() =~= a.drop_first() + b);
        lemma_render_concat(a.drop_first(), b, texts);
    }
}

/// The characters of `s` as pieces give `s` back.
pub proof fn lemma_render_chars(s: Seq<char>, texts: Seq<Seq<char>>)
    ensures
        render(char_pieces(s), texts) == s,
    decreases s.len(),
{
    if s.len() > 0 {
        let ps = char_pieces(s);
        assert(ps.len() == s.len());
        assert(ps[0] == chr_piece(s[0]));
        assert forall|i: int| 0 <= i < s.len() - 1 implies #[trigger] ps.drop_first()[i] == char_pieces(s.drop_first())[i] by {
            assert(ps[i + 1] == chr_piece(s[i + 1]));
        }
        assert(char_pieces(s).drop_first() =~= char_pieces(s.drop_first()));
        lemma_render_chars(s.drop_first(), texts);
        assert(seq![s[0]] + s.drop_first() =~= s);
    }
}

/// The leading characters: how many, that each is a character, that an item
/// follows them if anything does, and their text whatever the items' texts.
pub proof fn lemma_run(ps: Seq<Piece>, t1: Seq<Seq<char>>, t2: Seq<Seq<char>>)
    ensures
        run_len(ps) <= ps.len(),
        forall|i: int| 0 <= i < run_len(ps) ==> #[trigger] ps[i] is Chr,
        run_len(ps) < ps.len() ==> ps[run_len(ps) as int] is Itm,
        render(ps.take(run_len(ps) as int), t1) == render(ps.take(run_len(ps) as int), t2),
        render(ps.take(run_len(ps) as int), t1).len() == run_len(ps),
    decreases ps.len(),
{
    if ps.len() > 0 && ps[0] is Chr {
        let rest = ps.drop_first();
        lemma_run(rest, t1, t2);
        let n = run_len(ps) as int;
        assert(ps.take(n).drop_first() =~= rest.take(n - 1));
        assert forall|i: int| 0 <= i < run_len(ps) implies #[trigger] ps[i] is Chr by {
            if i > 0 {
                assert(ps[i] == rest[i - 1]);
            }
        }
    } else {
        assert(ps.take(0) =~= Seq::<Piece>::empty());
    }
}

/// A text split at the end of its leading characters, and what follows them:
/// nothing, or an item's bracketed text.
pub proof fn lemma_run_split(ps: Seq<Piece>, texts: Seq<Seq<char>>)
    requires
        items_below(ps, texts.len()),
        all_bracketed(texts),
    ensures
        render(ps, texts) == render(ps.take(run_len(ps) as int), texts) + render(
            ps.skip(run_len(ps) as int),
            texts,
        ),
        opens_bracket_or_ends(render(ps.skip(run_len(ps) as int), texts)),
{
    lemma_run(ps, texts, texts);
    let n = run_len(ps) as int;
    assert(ps =~= ps.take(n) + ps.skip(n));
    lemma_render_concat(ps.take(n), ps.skip(n), texts);
    let rest = ps.skip(n);
    if rest.len() > 0 {
        assert(rest[0] == ps[n]);
        let k = rest[0]->Itm_0;
        assert(ps[n] matches Piece::Itm(j) ==> j < texts.len());
        assert(bracketed(texts[k as int]));
        assert(render(rest, texts) == texts[k as int] + render(rest.drop_first(), texts));
    }
}

/// Pieces that are all characters read the same whatever the items' texts,
/// one character each.
pub proof fn lemma_all_chr(ps: Seq<Piece>, t1: Seq<Seq<char>>, t2: Seq<Seq<char>>)
    requires
        forall|i: int| 0 <= i < ps.len() ==> #[trigger] ps[i] is Chr,
    ensures
        render(ps, t1) == render(ps, t2),
        render(ps, t1).len() == ps.len(),
    decreases ps.len(),
{
    if ps.len() > 0 {
        assert(ps[0] is Chr);
        let rest = ps.drop_first();
        assert forall|i: int| 0 <= i < rest.len() implies #[trigger] rest[i] is Chr by {
            assert(rest[i] == ps[i + 1]);
        }
        lemma_all_chr(rest, t1, t2);
    }
}

/// The pieces `ps` with every occurrence of `f` that begins among the leading
/// characters, scanning left to right, made the item `k`.
pub open spec fn split(ps: Seq<Piece>, texts: Seq<Seq<char>>, f: Seq<char>, k: nat) -> Seq<Piece>
    decreases ps.len(),
{
    if ps.len() == 0 {
        Seq::empty()
    } else if ps[0] is Chr && 0 < f.len() <= run_len(ps) && f.len() <= ps.len() && starts_with(
        render(ps, texts),
        f,
    ) {
        seq![Piece::Itm(k)] + split(ps.skip(f.len() as int), texts, f, k)
    } else {
        seq![ps[0]] + split(ps.drop_first(), texts, f, k)
    }
}

/// The pieces `ps` with every item `k` written out as the characters of `m`.
pub open spec fn expand(ps: Seq<Piece>, k: nat, m: Seq<char>) -> Seq<Piece>
    decreases ps.len(),
{
    if ps.len() == 0 {
        Seq::empty()
    } else if ps[0] == Piece::Itm(k) {
        char_pieces(m) + expand(ps.drop_first(), k, m)
    } else {
        seq![ps[0]] + expand(ps.drop_first(), k, m)
    }
}

/// The text of a piece put in front of others.
pub proof fn lemma_render_cons(p: Piece, ps: Seq<Piece>, texts: Seq<Seq<char>>)
    ensures
        render(seq![p] + ps, texts) == piece_text(p, texts) + render(ps, texts),
{
    assert((seq![p] + ps).drop_first() =~= ps);
    assert((seq![p] + ps)[0] == p);
}

/// Setting aside `f` as the item `k`, written `texts[k]`, in a text laid out
/// as `ps`: the text of the new layout is what `replace_every` gives, the
/// original texts read as before, and the items stay below `n`.
pub proof fn lemma_split(
    ps: Seq<Piece>,
    texts: Seq<Seq<char>>,
    origs: Seq<Seq<char>>,
    f: Seq<char>,
    k: nat,
    n: nat,
)
    requires
        f.len() > 0,
        no_doubled(f),
        f[0] != '_',
        f.last() != '_',
        k < n <= texts.len(),
        origs.len() == texts.len(),
        origs[k as int] == f,
        all_bracketed(texts),
        forall|j: int| 0 <= j < texts.len() ==> !has_sub(#[trigger] texts[j], f),
        items_below(ps, n),
    ensures
        replace_every(render(ps, texts), f, texts[k as int]) == render(split(ps, texts, f, k), texts),
        render(split(ps, texts, f, k), origs) == render(ps, origs),
        items_below(split(ps, texts, f, k), n),
    decreases ps.len(),
{
    let x = render(ps, texts);
    let sp = split(ps, texts, f, k);
    if ps.len() == 0 {
        assert(sp =~= Seq::<Piece>::empty());
    } else if ps[0] is Chr && 0 < f.len() <= run_len(ps) && f.len() <= ps.len() && starts_with(x, f) {
        let m = f.len() as int;
        let head = ps.take(m);
        let tail = ps.skip(m);
        lemma_run(ps, texts, origs);
        assert forall|i: int| 0 <= i < head.len() implies #[trigger] head[i] is Chr by {
            assert(head[i] == ps[i]);
        }
        lemma_all_chr(head, texts, origs);
        assert(ps =~= head + tail);
        lemma_render_concat(head, tail, texts);
        lemma_render_concat(head, tail, origs);
        assert(render(head, texts) =~= x.take(m));
        assert(x.skip(m) =~= render(tail, texts));
        lemma_replace_at_start(x, f, texts[k as int]);
        assert forall|i: int| 0 <= i < tail.len() implies (#[trigger] tail[i] matches Piece::Itm(j) ==> j < n) by {
            assert(tail[i] == ps[i + m]);
        }
        lemma_split(tail, texts, origs, f, k, n);
        lemma_render_cons(Piece::Itm(k), split(tail, texts, f, k), texts);
        lemma_render_cons(Piece::Itm(k), split(tail, texts, f, k), origs);
        let st = split(tail, texts, f, k);
        assert forall|i: int| 0 <= i < sp.len() implies (#[trigger] sp[i] matches Piece::Itm(j) ==> j < n) by {
            if i > 0 {
                assert(sp[i] == st[i - 1]);
            }
        }
    } else {
        let rest = ps.drop_first();
        assert forall|i: int| 0 <= i < rest.len() implies (#[trigger] rest[i] matches Piece::Itm(j) ==> j < n) by {
            assert(rest[i] == ps[i + 1]);
        }
        let w = render(rest, texts);
        match ps[0] {
            Piece::Itm(a) => {
                assert(ps[0] matches Piece::Itm(j) ==> j < n);
                let mk = texts[a as int];
                assert(bracketed(mk));
                assert(!has_sub(mk, f));
                assert forall|o: int| 0 <= o < mk.len() implies !#[trigger] starts_with((mk + w).skip(o), f) by {
                    assert((mk + w).skip(o) =~= mk.skip(o) + w);
                    lemma_plain_not_in_bracket(f, mk, o, w);
                }
                lemma_replace_keeps_prefix(mk, w, f, texts[k as int]);
            },
            Piece::Chr(c) => {
                lemma_run(ps, texts, texts);
                if starts_with(x, f) {
                    lemma_run_split(ps, texts);
                    lemma_plain_start_in_run(
                        f,
                        render(ps.take(run_len(ps) as int), texts),
                        render(ps.skip(run_len(ps) as int), texts),
                    );
                }
                assert(x == seq![c] + w);
                assert(x.drop_first() =~= w);
                lemma_replace_no_start(x, f, texts[k as int]);
            },
        }
        lemma_split(rest, texts, origs, f, k, n);
        let st = split(rest, texts, f, k);
        lemma_render_cons(ps[0], st, texts);
        lemma_render_cons(ps[0], st, origs);
        assert forall|i: int| 0 <= i < sp.len() implies (#[trigger] sp[i] matches Piece::Itm(j) ==> j < n) by {
            if i > 0 {
                assert(sp[i] == st[i - 1]);
            } else {
                assert(sp[0] == ps[0]);
            }
        }
    }
}

/// Putting back `m` for the bracketed text `f`, written for the item `k` and
/// for no other item, in a text laid out as `ps` whose original text holds no
/// `__` and not the name of `f`: the text of the layout with the item `k`
/// written out as `m` is what `replace_every` gives.
pub proof fn lemma_expand(
    ps: Seq<Piece>,
    texts: Seq<Seq<char>>,
    origs: Seq<Seq<char>>,
    f: Seq<char>,
    k: nat,
    m: Seq<char>,
)
    requires
        bracketed(f),
        all_bracketed(texts),
        items_below(ps, texts.len()),
        forall|i: int|
            0 <= i < ps.len() ==> (#[trigger] ps[i] matches Piece::Itm(j) ==> (texts[j as int] == f
                <==> j == k)),
        no_doubled(render(ps, origs)),
        !has_sub(render(ps, origs), inner(f)),
    ensures
        replace_every(render(ps, texts), f, m) == render(expand(ps, k, m), texts),
    decreases ps.len(),
{
    let x = render(ps, texts);
    if ps.len() == 0 {
        assert(expand(ps, k, m) =~= Seq::<Piece>::empty());
    } else {
        let rest = ps.drop_first();
        let w = render(rest, texts);
        assert forall|i: int| 0 <= i < rest.len() implies (#[trigger] rest[i] matches Piece::Itm(j) ==> j
            < texts.len()) by {
            assert(rest[i] == ps[i + 1]);
        }
        assert forall|i: int| 0 <= i < rest.len() implies (#[trigger] rest[i] matches Piece::Itm(j) ==> (
        texts[j as int] == f <==> j == k)) by {
            assert(rest[i] == ps[i + 1]);
        }
        let t = render(ps, origs);
        assert(t == piece_text(ps[0], origs) + render(rest, origs));
        lemma_no_doubled_parts(piece_text(ps[0], origs), render(rest, origs));
        lemma_no_sub_parts(piece_text(ps[0], origs), render(rest, origs), inner(f));
        lemma_expand(rest, texts, origs, f, k, m);
        let er = expand(rest, k, m);
        assert(ps[0] matches Piece::Itm(j) ==> j < texts.len());
        assert(ps[0] matches Piece::Itm(j) ==> (texts[j as int] == f <==> j == k));
        if ps[0] == Piece::Itm(k) {
            assert(x == f + w);
            assert(starts_with(x, f)) by {
                assert(x.take(f.len() as int) =~= f);
            }
            assert(x.skip(f.len() as int) =~= w);
            lemma_replace_at_start(x, f, m);
            lemma_render_concat(char_pieces(m), er, texts);
            lemma_render_chars(m, texts);
        } else {
            match ps[0] {
                Piece::Itm(a) => {
                    let mk = texts[a as int];
                    assert(bracketed(mk));
                    assert(mk != f);
                    lemma_run_split(rest, texts);
                    let b = run_len(rest) as int;
                    let r = render(rest.take(b), texts);
                    let z = render(rest.skip(b), texts);
                    lemma_run(rest, texts, origs);
                    assert(rest =~= rest.take(b) + rest.skip(b));
                    lemma_render_concat(rest.take(b), rest.skip(b), origs);
                    lemma_no_doubled_parts(render(rest.take(b), origs), render(rest.skip(b), origs));
                    lemma_no_sub_parts(render(rest.take(b), origs), render(rest.skip(b), origs), inner(f));
                    assert forall|o: int| 0 <= o < mk.len() implies !#[trigger] starts_with((mk + w).skip(o), f) by {
                        if o == 0 {
                            assert((mk + w).skip(o) =~= mk + w);
                            lemma_no_other_bracket_start(f, mk, w);
                        } else {
                            assert((mk + w).skip(o) =~= mk.skip(o) + (r + z));
                            lemma_no_bracket_start_inside(f, mk, o, r, z);
                        }
                    }
                    lemma_replace_keeps_prefix(mk, w, f, m);
                },
                Piece::Chr(c) => {
                    lemma_run_split(ps, texts);
                    let b = run_len(ps) as int;
                    lemma_run(ps, texts, origs);
                    assert(ps =~= ps.take(b) + ps.skip(b));
                    lemma_render_concat(ps.take(b), ps.skip(b), origs);
                    lemma_no_doubled_parts(render(ps.take(b), origs), render(ps.skip(b), origs));
                    lemma_no_run_start(f, render(ps.take(b), texts), render(ps.skip(b), texts));
                    assert(x == seq![c] + w);
                    assert(x.drop_first() =~= w);
                    lemma_replace_no_start(x, f, m);
                },
            }
            lemma_render_cons(ps[0], er, texts);
        }
    }
}

/// Writing out an item as its own original text leaves the original text as
/// it was.
pub proof fn lemma_expand_origs(ps: Seq<Piece>, origs: Seq<Seq<char>>, k: nat)
    ensures
        render(expand(ps, k, origs[k as int]), origs) == render(ps, origs),
    decreases ps.len(),
{
    if ps.len() > 0 {
        let rest = ps.drop_first();
        lemma_expand_origs(rest, origs, k);
        let er = expand(rest, k, origs[k as int]);
        if ps[0] == Piece::Itm(k) {
            lemma_render_concat(char_pieces(origs[k as int]), er, origs);
            lemma_render_chars(origs[k as int], origs);
        } else {
            lemma_render_cons(ps[0], er, origs);
        }
    }
}

/// Writing out the item `k` removes it and keeps every other item; where it
/// is absent, the pieces stay as they were.
pub proof fn lemma_expand_pred(ps: Seq<Piece>, k: nat, m: Seq<char>, allowed: spec_fn(nat) -> bool)
    requires
        forall|i: int| 0 <= i < ps.len() ==> (#[trigger] ps[i] matches Piece::Itm(j) ==> allowed(j)),
    ensures
        forall|i: int|
            0 <= i < expand(ps, k, m).len() ==> (#[trigger] expand(ps, k, m)[i] matches Piece::Itm(j) ==> allowed(j)
                && j != k),
        (forall|i: int| 0 <= i < ps.len() ==> (#[trigger] ps[i] matches Piece::Itm(j) ==> j != k)) ==> expand(
            ps,
            k,
            m,
        ) == ps,
    decreases ps.len(),
{
    let e = expand(ps, k, m);
    if ps.len() == 0 {
        assert(e =~= ps);
    } else {
        let rest = ps.drop_first();
        assert forall|i: int| 0 <= i < rest.len() implies (#[trigger] rest[i] matches Piece::Itm(j) ==> allowed(j)) by {
            assert(rest[i] == ps[i + 1]);
        }
        lemma_expand_pred(rest, k, m, allowed);
        let er = expand(rest, k, m);
        assert(ps[0] matches Piece::Itm(j) ==> allowed(j));
        if ps[0] == Piece::Itm(k) {
            let cs = char_pieces(m);
            assert forall|i: int| 0 <= i < e.len() implies (#[trigger] e[i] matches Piece::Itm(j) ==> allowed(j) && j
                != k) by {
                if i < cs.len() {
                    assert(e[i] == cs[i]);
                    assert(cs[i] == chr_piece(m[i]));
                } else {
                    assert(e[i] == er[i - cs.len()]);
                }
            }
        } else {
            assert forall|i: int| 0 <= i < e.len() implies (#[trigger] e[i] matches Piece::Itm(j) ==> allowed(j) && j
                != k) by {
                if i > 0 {
                    assert(e[i] == er[i - 1]);
                } else {
                    assert(e[0] == ps[0]);
                }
            }
            if forall|i: int| 0 <= i < ps.len() ==> (#[trigger] ps[i] matches Piece::Itm(j) ==> j != k) {
                assert forall|i: int| 0 <= i < rest.len() implies (#[trigger] rest[i] matches Piece::Itm(j) ==> j != k) by {
                    assert(rest[i] == ps[i + 1]);
                }
                assert(e =~= ps) by {
                    assert(e =~= seq![ps[0]] + er);
                    assert(ps =~= seq![ps[0]] + rest);
                }
            }
        }
    }
}

/// Two ways of writing the items give the same text when they agree on every
/// item that occurs.
pub proof fn lemma_render_agree(ps: Seq<Piece>, t1: Seq<Seq<char>>, t2: Seq<Seq<char>>)
    requires
        forall|i: int| 0 <= i < ps.len() ==> (#[trigger] ps[i] matches Piece::Itm(j) ==> t1[j as int] == t2[j as int]),
    ensures
        render(ps, t1) == render(ps, t2),
    decreases ps.len(),
{
    if ps.len() > 0 {
        let rest = ps.drop_first();
        assert forall|i: int| 0 <= i < rest.len() implies (#[trigger] rest[i] matches Piece::Itm(j) ==> t1[j as int]
            == t2[j as int]) by {
            assert(rest[i] == ps[i + 1]);
        }
        lemma_render_agree(rest, t1, t2);
        assert(ps[0] matches Piece::Itm(j) ==> t1[j as int] == t2[j as int]);
    }
}

/// The placeholders of (placeholder, original) pairs.
pub open spec fn marks(items: Seq<(Seq<char>, Seq<char>)>) -> Seq<Seq<char>> {
    items.map_values(|p: (Seq<char>, Seq<char>)| p.0)
}

/// The originals of (placeholder, original) pairs.
pub open spec fn origs(items: Seq<(Seq<char>, Seq<char>)>) -> Seq<Seq<char>> {
    items.map_values(|p: (Seq<char>, Seq<char>)| p.1)
}

/// `s` after each of the first `n` originals in turn has been replaced by its
/// placeholder.
pub open spec fn stash_pairs(s: Seq<char>, items: Seq<(Seq<char>, Seq<char>)>, n: nat) -> Seq<char>
    decreases n,
{
    if n == 0 {
        s
    } else {
        let p = items[n - 1];
        replace_every(stash_pairs(s, items, (n - 1) as nat), p.1, p.0)
    }
}

/// The layout of `s` after the first `n` originals have been set aside.
pub open spec fn stash_layout(s: Seq<char>, items: Seq<(Seq<char>, Seq<char>)>, n: nat) -> Seq<Piece>
    decreases n,
{
    if n == 0 {
        char_pieces(s)
    } else {
        split(stash_layout(s, items, (n - 1) as nat), marks(items), items[n - 1].1, (n - 1) as nat)
    }
}

/// Whether the original `f` can be set aside without touching a placeholder:
/// it is not empty, holds no `__`, neither begins nor ends with `_`, and
/// occurs in none of the placeholders.
pub open spec fn sets_aside_cleanly(f: Seq<char>, items: Seq<(Seq<char>, Seq<char>)>) -> bool {
    &&& f.len() > 0
    &&& no_doubled(f)
    &&& f[0] != '_'
    &&& f.last() != '_'
    &&& forall|j: int| 0 <= j < items.len() ==> !has_sub(#[trigger] items[j].0, f)
}

/// Setting aside the first `n` originals lays `s` out with their items: the
/// layout reads as the replaced text with placeholders and as `s` with
/// originals.
pub proof fn lemma_stash_layout(s: Seq<char>, items: Seq<(Seq<char>, Seq<char>)>, n: nat)
    requires
        n <= items.len(),
        all_bracketed(marks(items)),
        forall|k: int| 0 <= k < n ==> sets_aside_cleanly(#[trigger] items[k].1, items),
    ensures
        render(stash_layout(s, items, n), marks(items)) == stash_pairs(s, items, n),
        render(stash_layout(s, items, n), origs(items)) == s,
        items_below(stash_layout(s, items, n), n),
    decreases n,
{
    let ms = marks(items);
    let os = origs(items);
    if n == 0 {
        lemma_render_chars(s, ms);
        lemma_render_chars(s, os);
        let ps = char_pieces(s);
        assert forall|i: int| 0 <= i < ps.len() implies (#[trigger] ps[i] matches Piece::Itm(j) ==> j < n) by {
            assert(ps[i] == chr_piece(s[i]));
        }
    } else {
        let k = (n - 1) as nat;
        lemma_stash_layout(s, items, k);
        let f = items[k as int].1;
        assert(sets_aside_cleanly(f, items));
        assert forall|j: int| 0 <= j < ms.len() implies !has_sub(#[trigger] ms[j], f) by {
            assert(ms[j] == items[j].0);
        }
        let prev = stash_layout(s, items, k);
        assert forall|i: int| 0 <= i < prev.len() implies (#[trigger] prev[i] matches Piece::Itm(j) ==> j < n) by {
            assert(prev[i] matches Piece::Itm(j) ==> j < k);
        }
        assert(ms[k as int] == items[k as int].0);
        lemma_split(prev, ms, os, f, k, n);
    }
}

} // verus!
