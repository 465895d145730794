//! Text preprocessing: white-space and punctuation clean-up, phrase
//! contractions and, in aggressive mode, removal of articles and prepositions.

use vstd::prelude::*;
use crate::pattern::{
    compile, regex_accepts, regex_replace_all, regex_replace_all_by_leading_char, replace_all,
    replace_all_by_leading_char, Pattern,
};
use crate::text::{
    chars_of, copy_chars, is_white_space, join_spaced, join_with, key_code, keys_distinct,
    keys_longest_first, pair_views,
    replace_each, replace_pairs, same_chars, split_words, string_of, trim, trim_where, trim_ws,
    utf8_len, views, words,
};
use crate::unicode::{
    char_is_alphabetic, char_is_uppercase, is_alphabetic, is_uppercase, lowercase, to_lowercase,
};

verus! {

/// The pattern for runs of white space.
pub open spec fn whitespace_pattern() -> Seq<char> {
    "\\s+"@
}

/// The pattern for runs of two or more identical `.`, `!` or `?`.
pub open spec fn punctuation_pattern() -> Seq<char> {
    "[.]{2,}|[!]{2,}|[?]{2,}"@
}

/// Wordy phrases and their short forms, longest phrase first.
/// Among entries of equal length the order is a fixed choice of this table:
/// the longest-first rule leaves it open, and fixing it keeps the outcome the
/// same from run to run.
pub open spec fn contraction_table() -> Seq<(Seq<char>, Seq<char>)> {
    seq![
        ("in spite of the fact that"@, "although"@),
        ("conduct an investigation"@, "investigate"@),
        ("take into consideration"@, "consider"@),
        ("particularly important"@, "important"@),
        ("at this point in time"@, "now"@),
        ("give consideration to"@, "consider"@),
        ("due to the fact that"@, "because"@),
        ("come to a conclusion"@, "conclude"@),
        ("absolutely essential"@, "essential"@),
        ("especially important"@, "important"@),
        ("at the present time"@, "now"@),
        ("perform an analysis"@, "analyze"@),
        ("completely finished"@, "finished"@),
        ("extremely important"@, "important"@),
        ("for the purpose of"@, "to"@),
        ("until such time as"@, "until"@),
        ("in the near future"@, "soon"@),
        ("in a timely manner"@, "quickly"@),
        ("make an assumption"@, "assume"@),
        ("provide assistance"@, "help"@),
        ("highly significant"@, "significant"@),
        ("in the event that"@, "if"@),
        ("make improvements"@, "improve"@),
        ("make a decision"@, "decide"@),
        ("with regard to"@, "regarding"@),
        ("totally unique"@, "unique"@),
        ("rather unique"@, "unique"@),
        ("quite unique"@, "unique"@),
        ("in order to"@, "to"@),
        ("very unique"@, "unique"@)
    ]
}

/// The wordy phrases are tried longest first, so that no shorter phrase
/// breaks up a longer one before it is replaced, and no phrase is listed twice.
pub proof fn law_contraction_table_shape()
    ensures
        keys_longest_first(contraction_table()),
        keys_distinct(contraction_table()),
{
    let t = contraction_table();
    let lens: Seq<nat> = seq![25nat, 24, 23, 22, 21, 21, 20, 20, 20, 20, 19, 19, 19, 19, 18, 18, 18, 18, 18, 18, 18, 17, 17, 15, 14, 14, 13, 12, 11, 11];
    let codes: Seq<(nat, char, char, char, char)> = seq![(25nat, 'i', 'n', ' ', 's'), (24nat, 'c', 'o', 'n', 'd'), (23nat, 't', 'a', 'k', 'e'), (22nat, 'p', 'a', 'r', 't'), (21nat, 'a', 't', ' ', 't'), (21nat, 'g', 'i', 'v', 'e'), (20nat, 'd', 'u', 'e', ' '), (20nat, 'c', 'o', 'm', 'e'), (20nat, 'a', 'b', 's', 'o'), (20nat, 'e', 's', 'p', 'e'), (19nat, 'a', 't', ' ', 't'), (19nat, 'p', 'e', 'r', 'f'), (19nat, 'c', 'o', 'm', 'p'), (19nat, 'e', 'x', 't', 'r'), (18nat, 'f', 'o', 'r', ' '), (18nat, 'u', 'n', 't', 'i'), (18nat, 'i', 'n', ' ', 't'), (18nat, 'i', 'n', ' ', 'a'), (18nat, 'm', 'a', 'k', 'e'), (18nat, 'p', 'r', 'o', 'v'), (18nat, 'h', 'i', 'g', 'h'), (17nat, 'i', 'n', ' ', 't'), (17nat, 'm', 'a', 'k', 'e'), (15nat, 'm', 'a', 'k', 'e'), (14nat, 'w', 'i', 't', 'h'), (14nat, 't', 'o', 't', 'a'), (13nat, 'r', 'a', 't', 'h'), (12nat, 'q', 'u', 'i', 't'), (11nat, 'i', 'n', ' ', 'o'), (11nat, 'v', 'e', 'r', 'y')];
    reveal_strlit("in spite of the fact that");
    crate::text::lemma_ascii_utf8_len("in spite of the fact that"@);
    reveal_strlit("conduct an investigation");
    crate::text::lemma_ascii_utf8_len("conduct an investigation"@);
    reveal_strlit("take into consideration");
    crate::text::lemma_ascii_utf8_len("take into consideration"@);
    reveal_strlit("particularly important");
    crate::text::lemma_ascii_utf8_len("particularly important"@);
    reveal_strlit("at this point in time");
    crate::text::lemma_ascii_utf8_len("at this point in time"@);
    reveal_strlit("give consideration to");
    crate::text::lemma_ascii_utf8_len("give consideration to"@);
    reveal_strlit("due to the fact that");
    crate::text::lemma_ascii_utf8_len("due to the fact that"@);
    reveal_strlit("come to a conclusion");
    crate::text::lemma_ascii_utf8_len("come to a conclusion"@);
    reveal_strlit("absolutely essential");
    crate::text::lemma_ascii_utf8_len("absolutely essential"@);
    reveal_strlit("especially important");
    crate::text::lemma_ascii_utf8_len("especially important"@);
    reveal_strlit("at the present time");
    crate::text::lemma_ascii_utf8_len("at the present time"@);
    reveal_strlit("perform an analysis");
    crate::text::lemma_ascii_utf8_len("perform an analysis"@);
    reveal_strlit("completely finished");
    crate::text::lemma_ascii_utf8_len("completely finished"@);
    reveal_strlit("extremely important");
    crate::text::lemma_ascii_utf8_len("extremely important"@);
    reveal_strlit("for the purpose of");
    crate::text::lemma_ascii_utf8_len("for the purpose of"@);
    reveal_strlit("until such time as");
    crate::text::lemma_ascii_utf8_len("until such time as"@);
    reveal_strlit("in the near future");
    crate::text::lemma_ascii_utf8_len("in the near future"@);
    reveal_strlit("in a timely manner");
    crate::text::lemma_ascii_utf8_len("in a timely manner"@);
    reveal_strlit("make an assumption");
    crate::text::lemma_ascii_utf8_len("make an assumption"@);
    reveal_strlit("provide assistance");
    crate::text::lemma_ascii_utf8_len("provide assistance"@);
    reveal_strlit("highly significant");
    crate::text::lemma_ascii_utf8_len("highly significant"@);
    reveal_strlit("in the event that");
    crate::text::lemma_ascii_utf8_len("in the event that"@);
    reveal_strlit("make improvements");
    crate::text::lemma_ascii_utf8_len("make improvements"@);
    reveal_strlit("make a decision");
    crate::text::lemma_ascii_utf8_len("make a decision"@);
    reveal_strlit("with regard to");
    crate::text::lemma_ascii_utf8_len("with regard to"@);
    reveal_strlit("totally unique");
    crate::text::lemma_ascii_utf8_len("totally unique"@);
    reveal_strlit("rather unique");
    crate::text::lemma_ascii_utf8_len("rather unique"@);
    reveal_strlit("quite unique");
    crate::text::lemma_ascii_utf8_len("quite unique"@);
    reveal_strlit("in order to");
    crate::text::lemma_ascii_utf8_len("in order to"@);
    reveal_strlit("very unique");
    crate::text::lemma_ascii_utf8_len("very unique"@);
    assert forall|i: int| 0 <= i < t.len() implies utf8_len(#[trigger] t[i].0) == lens[i] by {}
    crate::text::lemma_keys_longest_first(t, lens);
    assert forall|i: int| 0 <= i < t.len() implies key_code(#[trigger] t[i].0) == codes[i] by {}
    crate::text::lemma_keys_distinct(t, codes);
}

/// The table of [`contraction_table`] as string pairs.
fn contraction_pairs() -> (v: Vec<(&'static str, &'static str)>)
    ensures
        pair_views(v@) == contraction_table(),
{
    let v = vec![
        ("in spite of the fact that", "although"),
        ("conduct an investigation", "investigate"),
        ("take into consideration", "consider"),
        ("particularly important", "important"),
        ("at this point in time", "now"),
        ("give consideration to", "consider"),
        ("due to the fact that", "because"),
        ("come to a conclusion", "conclude"),
        ("absolutely essential", "essential"),
        ("especially important", "important"),
        ("at the present time", "now"),
        ("perform an analysis", "analyze"),
        ("completely finished", "finished"),
        ("extremely important", "important"),
        ("for the purpose of", "to"),
        ("until such time as", "until"),
        ("in the near future", "soon"),
        ("in a timely manner", "quickly"),
        ("make an assumption", "assume"),
        ("provide assistance", "help"),
        ("highly significant", "significant"),
        ("in the event that", "if"),
        ("make improvements", "improve"),
        ("make a decision", "decide"),
        ("with regard to", "regarding"),
        ("totally unique", "unique"),
        ("rather unique", "unique"),
        ("quite unique", "unique"),
        ("in order to", "to"),
        ("very unique", "unique")
    ];
    assert(pair_views(v@) =~= contraction_table());
    v
}

/// Runs of white space collapsed by the whitespace pattern to one space, then trimmed.
pub open spec fn normalized_whitespace(s: Seq<char>) -> Seq<char> {
    trim_ws(regex_replace_all(whitespace_pattern(), s, " "@))
}

/// Runs of repeated `.`, `!` or `?` replaced by their first character.
pub open spec fn normalized_punctuation(s: Seq<char>) -> Seq<char> {
    regex_replace_all_by_leading_char(punctuation_pattern(), s)
}

/// The lowercased text with every wordy phrase of the table replaced by its
/// short form, longest phrase first.
pub open spec fn contracted(s: Seq<char>) -> Seq<char> {
    replace_each(lowercase(s), contraction_table())
}

/// The contraction table's wordy phrases are at least eleven characters long,
/// its short forms at most eleven, no short form is a wordy phrase, and the
/// phrases come longest first.
proof fn lemma_contraction_table_separated()
    ensures
        forall|j: int| 0 <= j < contraction_table().len() ==> #[trigger] contraction_table()[j].0.len() >= 11,
        forall|i: int| 0 <= i < contraction_table().len() ==> #[trigger] contraction_table()[i].1.len() <= 11,
        forall|i: int, j: int|
            0 <= i < j < contraction_table().len() ==> #[trigger] contraction_table()[i].0.len()
                >= #[trigger] contraction_table()[j].0.len(),
        forall|i: int, j: int|
            0 <= i < contraction_table().len() && 0 <= j < contraction_table().len() ==> #[trigger] contraction_table()[j].0
                != #[trigger] contraction_table()[i].1,
{
    let t = contraction_table();
    let lens: Seq<nat> = seq![25, 24, 23, 22, 21, 21, 20, 20, 20, 20, 19, 19, 19, 19, 18, 18, 18, 18, 18, 18, 18, 17, 17, 15, 14, 14, 13, 12, 11, 11];
    let slens: Seq<nat> = seq![8, 11, 8, 9, 3, 8, 7, 8, 9, 9, 3, 7, 8, 9, 2, 5, 4, 7, 6, 4, 11, 2, 7, 6, 9, 6, 6, 6, 2, 6];
    reveal_strlit("in spite of the fact that");
    reveal_strlit("although");
    reveal_strlit("conduct an investigation");
    reveal_strlit("investigate");
    reveal_strlit("take into consideration");
    reveal_strlit("consider");
    reveal_strlit("particularly important");
    reveal_strlit("important");
    reveal_strlit("at this point in time");
    reveal_strlit("now");
    reveal_strlit("give consideration to");
    reveal_strlit("due to the fact that");
    reveal_strlit("because");
    reveal_strlit("come to a conclusion");
    reveal_strlit("conclude");
    reveal_strlit("absolutely essential");
    reveal_strlit("essential");
    reveal_strlit("especially important");
    reveal_strlit("at the present time");
    reveal_strlit("perform an analysis");
    reveal_strlit("analyze");
    reveal_strlit("completely finished");
    reveal_strlit("finished");
    reveal_strlit("extremely important");
    reveal_strlit("for the purpose of");
    reveal_strlit("to");
    reveal_strlit("until such time as");
    reveal_strlit("until");
    reveal_strlit("in the near future");
    reveal_strlit("soon");
    reveal_strlit("in a timely manner");
    reveal_strlit("quickly");
    reveal_strlit("make an assumption");
    reveal_strlit("assume");
    reveal_strlit("provide assistance");
    reveal_strlit("help");
    reveal_strlit("highly significant");
    reveal_strlit("significant");
    reveal_strlit("in the event that");
    reveal_strlit("if");
    reveal_strlit("make improvements");
    reveal_strlit("improve");
    reveal_strlit("make a decision");
    reveal_strlit("decide");
    reveal_strlit("with regard to");
    reveal_strlit("regarding");
    reveal_strlit("totally unique");
    reveal_strlit("unique");
    reveal_strlit("rather unique");
    reveal_strlit("quite unique");
    reveal_strlit("in order to");
    reveal_strlit("very unique");
    assert forall|j: int| 0 <= j < t.len() implies #[trigger] t[j].0.len() == lens[j] by {}
    assert forall|i: int| 0 <= i < t.len() implies #[trigger] t[i].1.len() == slens[i] by {}
    assert forall|j: int| 0 <= j < t.len() implies #[trigger] t[j].0.len() >= 11 by {
        assert(t[j].0.len() == lens[j]);
    }
    assert forall|i: int| 0 <= i < t.len() implies #[trigger] t[i].1.len() <= 11 by {
        assert(t[i].1.len() == slens[i]);
    }
    assert forall|i: int, j: int| 0 <= i < j < t.len() implies #[trigger] t[i].0.len() >= #[trigger] t[j].0.len() by {
        assert(t[i].0.len() == lens[i]);
        assert(t[j].0.len() == lens[j]);
    }
    assert forall|i: int, j: int| 0 <= i < t.len() && 0 <= j < t.len() implies #[trigger] t[j].0 != #[trigger] t[i].1 by {
        assert(t[i].1.len() == slens[i]);
        assert(t[j].0.len() == lens[j]);
        if lens[j] == 11 && slens[i] == 11 {
            assert(j == 28 || j == 29);
            assert(i == 1 || i == 20);
            assert(t[j].0[2] != t[i].1[2]);
        }
    }
}

/// Every wordy phrase of the table is contracted: a text that, lowercased, is
/// exactly one of the phrases becomes that phrase's short form.
pub proof fn law_contraction_of_phrase(s: Seq<char>, i: int)
    requires
        0 <= i < contraction_table().len(),
        lowercase(s) == contraction_table()[i].0,
    ensures
        contracted(s) == contraction_table()[i].1,
{
    let t = contraction_table();
    lemma_contraction_table_separated();
    law_contraction_table_shape();
    assert forall|j: int| 0 <= j < i implies #[trigger] t[j].0.len() >= t[i].0.len() && t[j].0 != t[i].0 by {
        assert(t[j].0.len() >= t[i].0.len());
        assert(t[j].0 != t[i].0);
    }
    assert forall|j: int| i < j < t.len() implies #[trigger] t[j].0.len() > 0 && t[j].0.len() >= t[i].1.len()
        && t[j].0 != t[i].1 by {
        assert(t[j].0.len() >= 11);
        assert(t[i].1.len() <= 11);
        assert(t[j].0 != t[i].1);
    }
    crate::text::lemma_replace_each_phrase(t, i);
}

/// Articles and prepositions that aggressive mode may drop.
pub open spec fn removable_words() -> Seq<Seq<char>> {
    seq![
        seq!['a'],
        seq!['a', 'n'],
        seq!['t', 'h', 'e'],
        seq!['o', 'f'],
        seq!['i', 'n'],
        seq!['o', 'n'],
        seq!['a', 't'],
        seq!['b', 'y'],
        seq!['f', 'o', 'r'],
        seq!['w', 'i', 't', 'h'],
        seq!['t', 'o'],
    ]
}

/// The predicate "not alphabetic" as a value.
pub open spec fn non_alphabetic() -> spec_fn(char) -> bool {
    |c: char| !is_alphabetic(c)
}

/// Whether the `i`-th of the words `ws` stays in aggressive mode: it is not a
/// removable word once lowercased and stripped of non-letters at both ends, or
/// it opens the text, or it follows a word ending in a period, or it starts
/// with an uppercase character as written (part of a proper noun, as in
/// "The Hague").
pub open spec fn word_is_kept(ws: Seq<Seq<char>>, i: int) -> bool {
    let clean = trim_where(lowercase(ws[i]), non_alphabetic());
    ||| !removable_words().contains(clean)
    ||| i == 0
    ||| (i > 0 && ws[i - 1].last() == '.')
    ||| is_uppercase(if ws[i].len() > 0 { ws[i][0] } else { 'a' })
}

/// The words among the first `n` of `ws` that stay, in order.
pub open spec fn kept_words(ws: Seq<Seq<char>>, n: int) -> Seq<Seq<char>>
    decreases n,
{
    if n <= 0 {
        seq![]
    } else {
        kept_words(ws, n - 1) + if word_is_kept(ws, n - 1) {
            seq![ws[n - 1]]
        } else {
            seq![]
        }
    }
}

/// The words of `s` that stay, joined by single spaces.
pub open spec fn without_unnecessary_words(s: Seq<char>) -> Seq<char> {
    join_with(kept_words(words(s), words(s).len() as int), seq![' '])
}

/// The whole preprocessing of a prompt.
pub open spec fn preprocessed(s: Seq<char>, aggressive: bool) -> Seq<char> {
    let c = contracted(normalized_punctuation(normalized_whitespace(s)));
    if aggressive {
        without_unnecessary_words(c)
    } else {
        c
    }
}

/// Whitespace normalization leaves no white space at either end of the text,
/// and normalizing the result's ends again changes nothing.
pub proof fn law_normalized_whitespace_is_trimmed(s: Seq<char>)
    ensures
        normalized_whitespace(s).len() > 0 ==> !is_white_space(normalized_whitespace(s)[0]),
        normalized_whitespace(s).len() > 0 ==> !is_white_space(normalized_whitespace(s).last()),
        trim_ws(normalized_whitespace(s)) == normalized_whitespace(s),
{
    crate::text::law_trim_ws(regex_replace_all(whitespace_pattern(), s, " "@));
}

/// Removing unnecessary words only drops words: the words that stay are, in
/// order, a subsequence of the text's words; the first word always stays.
pub proof fn law_kept_words_subsequence(ws: Seq<Seq<char>>, n: int)
    requires
        0 <= n <= ws.len(),
    ensures
        ({
            let kept = kept_words(ws, n);
            &&& kept.len() <= n
            &&& exists|idx: Seq<int>| #[trigger] picks(ws, n, kept, idx)
            &&& (n > 0 ==> kept.len() > 0 && kept[0] == ws[0])
        }),
    decreases n,
{
    if n == 0 {
        assert(picks(ws, n, kept_words(ws, n), Seq::<int>::empty()));
    } else {
        law_kept_words_subsequence(ws, n - 1);
        let earlier = kept_words(ws, n - 1);
        let idx0 = choose|idx: Seq<int>| #[trigger] picks(ws, n - 1, earlier, idx);
        let kept = kept_words(ws, n);
        if word_is_kept(ws, n - 1) {
            let idx = idx0.push(n - 1);
            assert(kept =~= earlier.push(ws[n - 1]));
            assert forall|k: int| 0 <= k < idx.len() implies 0 <= #[trigger] idx[k] < n && kept[k]
                == ws[idx[k]] by {
                if k < idx0.len() {
                    assert(idx[k] == idx0[k]);
                }
            }
            assert forall|j: int, k: int| 0 <= j < k < idx.len() implies #[trigger] idx[j]
                < #[trigger] idx[k] by {
                if k < idx0.len() {
                    assert(idx[j] == idx0[j] && idx[k] == idx0[k]);
                } else {
                    assert(idx[j] == idx0[j]);
                }
            }
            assert(picks(ws, n, kept, idx));
        } else {
            assert(kept =~= earlier);
            assert(picks(ws, n, kept, idx0));
        }
        if n == 1 {
            assert(word_is_kept(ws, 0));
            assert(kept_words(ws, 0) =~= Seq::<Seq<char>>::empty());
        } else {
            assert(kept[0] == earlier[0]);
        }
    }
}

/// `idx` picks, at increasing positions below `n`, the words of `ws` that make up `kept`.
pub open spec fn picks(ws: Seq<Seq<char>>, n: int, kept: Seq<Seq<char>>, idx: Seq<int>) -> bool {
    &&& idx.len() == kept.len()
    &&& forall|k: int| 0 <= k < idx.len() ==> 0 <= #[trigger] idx[k] < n && kept[k] == ws[idx[k]]
    &&& forall|j: int, k: int| 0 <= j < k < idx.len() ==> #[trigger] idx[j] < #[trigger] idx[k]
}

/// The words of the text after removing unnecessary words are exactly the
/// words that stay, in order.
pub proof fn law_removal_yields_kept_words(s: Seq<char>)
    ensures
        words(without_unnecessary_words(s)) == kept_words(words(s), words(s).len() as int),
{
    let ws = words(s);
    let kept = kept_words(ws, ws.len() as int);
    law_kept_words_subsequence(ws, ws.len() as int);
    crate::text::lemma_words_well_formed(s);
    let idx = choose|idx: Seq<int>| #[trigger] picks(ws, ws.len() as int, kept, idx);
    assert forall|k: int| 0 <= k < kept.len() implies crate::text::is_word(#[trigger] kept[k]) by {
        assert(kept[k] == ws[idx[k]]);
        assert(ws[idx[k]].len() > 0);
    }
    crate::text::law_words_of_joined(kept);
}

/// Aggressive mode is the default preprocessing followed by the removal of
/// unnecessary words.
pub proof fn law_aggressive_extends_default(s: Seq<char>)
    ensures
        preprocessed(s, true) == without_unnecessary_words(preprocessed(s, false)),
{
}

/// Preprocessing looks at a text only once its white space is collapsed: two
/// texts whose white-space normalizations agree are preprocessed alike, so a
/// wordy phrase broken by a line break or a run of spaces is contracted as if
/// it were written with single spaces.
pub proof fn law_preprocessing_sees_collapsed_whitespace(s1: Seq<char>, s2: Seq<char>, aggressive: bool)
    requires
        normalized_whitespace(s1) == normalized_whitespace(s2),
    ensures
        preprocessed(s1, aggressive) == preprocessed(s2, aggressive),
{
}

/// Default preprocessing contracts a text that, once its white space and
/// punctuation are normalized and it is lowercased, is exactly one of the
/// table's wordy phrases, to that phrase's short form.
pub proof fn law_preprocessing_contracts_phrase(s: Seq<char>, i: int)
    requires
        0 <= i < contraction_table().len(),
        lowercase(normalized_punctuation(normalized_whitespace(s))) == contraction_table()[i].0,
    ensures
        preprocessed(s, false) == contraction_table()[i].1,
{
    law_contraction_of_phrase(normalized_punctuation(normalized_whitespace(s)), i);
}

/// A kept word is among the words kept from any longer stretch of words.
proof fn lemma_kept_word_listed(ws: Seq<Seq<char>>, i: int, n: int)
    requires
        0 <= i < n <= ws.len(),
        word_is_kept(ws, i),
    ensures
        kept_words(ws, n).contains(ws[i]),
    decreases n,
{
    let prev = kept_words(ws, n - 1);
    if n - 1 == i {
        let k = prev + seq![ws[i]];
        assert(kept_words(ws, n) == k);
        assert(k[prev.len() as int] == ws[i]);
    } else {
        lemma_kept_word_listed(ws, i, n - 1);
        let j = choose|j: int| 0 <= j < prev.len() && prev[j] == ws[i];
        let extra = if word_is_kept(ws, n - 1) {
            seq![ws[n - 1]]
        } else {
            seq![]
        };
        assert(kept_words(ws, n) == prev + extra);
        assert((prev + extra)[j] == ws[i]);
    }
}

/// Word removal drops only articles and prepositions: a word that is not one
/// of the removable words, once lowercased and stripped of non-letters at both
/// ends, is among the words of the result.
pub proof fn law_only_removable_words_dropped(s: Seq<char>, i: int)
    requires
        0 <= i < words(s).len(),
        !removable_words().contains(trim_where(lowercase(words(s)[i]), non_alphabetic())),
    ensures
        words(without_unnecessary_words(s)).contains(words(s)[i]),
{
    let ws = words(s);
    assert(word_is_kept(ws, i));
    lemma_kept_word_listed(ws, i, ws.len() as int);
    law_removal_yields_kept_words(s);
}

/// Word removal does drop an article or preposition that neither opens the
/// text, nor follows a word ending in a period, nor starts with an uppercase
/// character: it adds nothing to the words kept before it.
pub proof fn law_removable_words_dropped(s: Seq<char>, i: int)
    requires
        0 < i < words(s).len(),
        removable_words().contains(trim_where(lowercase(words(s)[i]), non_alphabetic())),
        words(s)[i - 1].last() != '.',
        !is_uppercase(words(s)[i][0]),
    ensures
        kept_words(words(s), i + 1) == kept_words(words(s), i),
{
    let ws = words(s);
    crate::text::lemma_words_well_formed(s);
    assert(ws[i].len() > 0);
    assert(!word_is_kept(ws, i));
    assert(kept_words(ws, i + 1) =~= kept_words(ws, i) + seq![]);
}

/// Text preprocessing compressor that handles basic text cleanup and normalization.
pub struct TextPreprocessor {
    /// Regex for multiple whitespace
    whitespace_regex: Pattern,
    /// Regex for redundant punctuation
    punctuation_regex: Pattern,
    /// Common word contractions, longest phrase first
    contractions: Vec<(&'static str, &'static str)>,
}

impl TextPreprocessor {
    #[verifier::type_invariant]
    spec fn well_formed(self) -> bool {
        &&& self.whitespace_regex@ == whitespace_pattern()
        &&& self.punctuation_regex@ == punctuation_pattern()
        &&& pair_views(self.contractions@) == contraction_table()
    }

    /// Builds the preprocessor; `None` when the regex crate refuses one of its patterns.
    pub fn new() -> (r: Option<Self>)
        ensures
            r is Some <==> regex_accepts(whitespace_pattern()) && regex_accepts(punctuation_pattern()),
    {
        let contractions = contraction_pairs();
        let whitespace_regex = match compile("\\s+") {
            Some(p) => p,
            None => return None,
        };
        let punctuation_regex = match compile("[.]{2,}|[!]{2,}|[?]{2,}") {
            Some(p) => p,
            None => return None,
        };
        Some(TextPreprocessor { whitespace_regex, punctuation_regex, contractions })
    }

    /// Remove redundant whitespace and normalize formatting.
    pub fn normalize_whitespace(&self, text: &str) -> (r: String)
        ensures
            r@ == normalized_whitespace(text@),
    {
        proof {
            use_type_invariant(self);
        }
        let normalized = replace_all(&self.whitespace_regex, text, " ");
        trim(normalized.as_str())
    }

    /// Normalize punctuation patterns: a run of repeated `.`, `!` or `?`
    /// becomes its first character.
    pub fn normalize_punctuation(&self, text: &str) -> (r: String)
        ensures
            r@ == normalized_punctuation(text@),
    {
        proof {
            use_type_invariant(self);
        }
        replace_all_by_leading_char(&self.punctuation_regex, text)
    }

    /// Apply phrase contractions to reduce verbosity.
    pub fn apply_contractions(&self, text: &str) -> (r: String)
        ensures
            r@ == contracted(text@),
    {
        proof {
            use_type_invariant(self);
        }
        let lower = to_lowercase(text);
        let chars = chars_of(lower.as_str());
        let result = replace_pairs(chars.as_slice(), &self.contractions);
        string_of(result.as_slice())
    }

    /// Remove unnecessary articles and prepositions in safe contexts.
    pub fn remove_unnecessary_words(&self, text: &str) -> (r: String)
        ensures
            r@ == without_unnecessary_words(text@),
    {
        let chars = chars_of(text);
        let ws = split_words(chars.as_slice());
        let ghost all = words(text@);
        proof {
            crate::text::lemma_words_well_formed(text@);
            assert forall|k: int| 0 <= k < ws.len() implies #[trigger] ws@[k]@.len() > 0 by {
                assert(views(ws@)[k] == ws@[k]@);
            }
        }
        let mut kept: Vec<Vec<char>> = Vec::new();
        let mut i: usize = 0;
        while i < ws.len()
            invariant
                i <= ws.len(),
                views(ws@) == all,
                all == words(text@),
                forall|k: int| 0 <= k < ws.len() ==> #[trigger] ws@[k]@.len() > 0,
                views(kept@) == kept_words(all, i as int),
            decreases ws.len() - i,
        {
            let ghost before = views(kept@);
            let keep = word_stays(&ws, i);
            if keep {
                let w = copy_chars(ws[i].as_slice());
                kept.push(w);
                assert(views(kept@) =~= before + seq![all[i as int]]);
            } else {
                assert(kept_words(all, i + 1) =~= kept_words(all, i as int));
            }
            i = i + 1;
        }
        let joined = join_spaced(&kept);
        string_of(joined.as_slice())
    }

    /// The preprocessed prompt: white space and punctuation normalized, phrases
    /// contracted and, in aggressive mode, unnecessary words removed.
    pub fn compress_text(&self, prompt: &str, aggressive: bool) -> (r: String)
        ensures
            r@ == preprocessed(prompt@, aggressive),
    {
        let step1 = self.normalize_whitespace(prompt);
        let step2 = self.normalize_punctuation(step1.as_str());
        let step3 = self.apply_contractions(step2.as_str());
        if aggressive {
            self.remove_unnecessary_words(step3.as_str())
        } else {
            step3
        }
    }
}

/// Whether the `i`-th word of `ws` stays in aggressive mode.
fn word_stays(ws: &Vec<Vec<char>>, i: usize) -> (keep: bool)
    requires
        i < ws.len(),
        forall|k: int| 0 <= k < ws.len() ==> #[trigger] ws@[k]@.len() > 0,
    ensures
        keep == word_is_kept(views(ws@), i as int),
{
    let word = string_of(ws[i].as_slice());
    let lower = to_lowercase(word.as_str());
    let lower_chars = chars_of(lower.as_str());
    let clean = trim_non_alphabetic(lower_chars.as_slice());
    let first = if ws[i].len() > 0 {
        ws[i][0]
    } else {
        'a'
    };
    let follows_period = i > 0 && ends_with_period(ws[i - 1].as_slice());
    !is_removable(clean.as_slice()) || i == 0 || follows_period || char_is_uppercase(first)
}

/// Whether `w` ends with a period.
fn ends_with_period(w: &[char]) -> (b: bool)
    ensures
        w@.len() > 0 ==> b == (w@.last() == '.'),
{
    w.len() > 0 && w[w.len() - 1] == '.'
}

/// Whether `w` is one of the removable words.
fn is_removable(w: &[char]) -> (b: bool)
    ensures
        b == removable_words().contains(w@),
{
    let table: Vec<Vec<char>> = vec![
        vec!['a'],
        vec!['a', 'n'],
        vec!['t', 'h', 'e'],
        vec!['o', 'f'],
        vec!['i', 'n'],
        vec!['o', 'n'],
        vec!['a', 't'],
        vec!['b', 'y'],
        vec!['f', 'o', 'r'],
        vec!['w', 'i', 't', 'h'],
        vec!['t', 'o'],
    ];
    proof {
        assert(table@[0]@ =~= seq!['a']);
        assert(table@[1]@ =~= seq!['a', 'n']);
        assert(table@[2]@ =~= seq!['t', 'h', 'e']);
        assert(table@[3]@ =~= seq!['o', 'f']);
        assert(table@[4]@ =~= seq!['i', 'n']);
        assert(table@[5]@ =~= seq!['o', 'n']);
        assert(table@[6]@ =~= seq!['a', 't']);
        assert(table@[7]@ =~= seq!['b', 'y']);
        assert(table@[8]@ =~= seq!['f', 'o', 'r']);
        assert(table@[9]@ =~= seq!['w', 'i', 't', 'h']);
        assert(table@[10]@ =~= seq!['t', 'o']);
        assert(views(table@) =~= removable_words());
    }
    let mut k: usize = 0;
    while k < table.len()
        invariant
            k <= table.len(),
            views(table@) == removable_words(),
            forall|j: int| 0 <= j < k ==> removable_words()[j] != w@,
        decreases table.len() - k,
    {
        if same_chars(table[k].as_slice(), w) {
            assert(removable_words()[k as int] == w@);
            return true;
        }
        k = k + 1;
    }
    false
}

/// `v` without non-alphabetic characters at either end
/// (`trim_matches(|c| !c.is_alphabetic())`).
fn trim_non_alphabetic(v: &[char]) -> (r: Vec<char>)
    ensures
        r@ == trim_where(v@, non_alphabetic()),
{
    let ghost strip = non_alphabetic();
    let mut i: usize = 0;
    assert(v@.skip(0) =~= v@);
    while i < v.len() && !char_is_alphabetic(v[i])
        invariant
            i <= v.len(),
            strip == non_alphabetic(),
            crate::text::trim_start_where(v@, strip) == crate::text::trim_start_where(
                v@.skip(i as int),
                strip,
            ),
        decreases v.len() - i,
    {
        assert(v@.skip(i as int).drop_first() =~= v@.skip(i + 1));
        i = i + 1;
    }
    let ghost start = v@.skip(i as int);
    let mut j: usize = v.len();
    assert(start.take(start.len() as int) =~= start);
    while j > i && !char_is_alphabetic(v[j - 1])
        invariant
            i <= j <= v.len(),
            strip == non_alphabetic(),
            start == v@.skip(i as int),
            crate::text::trim_end_where(start, strip) == crate::text::trim_end_where(
                start.take(j - i),
                strip,
            ),
        decreases j,
    {
        assert(start.take(j - i).drop_last() =~= start.take(j - i - 1));
        j = j - 1;
    }
    let mut r: Vec<char> = Vec::new();
    let mut k: usize = i;
    while k < j
        invariant
            i <= k <= j <= v.len(),
            r@ == v@.subrange(i as int, k as int),
        decreases j - k,
    {
        r.push(v[k]);
        k = k + 1;
    }
    assert(r@ =~= start.take(j - i));
    r
}

} // verus!
