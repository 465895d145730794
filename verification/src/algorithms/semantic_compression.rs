//! Semantic compression: shorter synonyms and phrasings, with code blocks,
//! inline code and URLs set aside while the prose is rewritten.

use vstd::prelude::*;
use crate::pattern::{
    compile, escape, find_all, regex_accepts, regex_escaped, regex_find_all, regex_replace_all,
    replace_all, Pattern,
};
use crate::layout::{
    all_bracketed, bracketed, expand, inner, lemma_all_chr,
    lemma_expand, lemma_expand_pred, lemma_expand_origs, lemma_render_agree, lemma_stash_layout, marks, no_doubled,
    doubled_at, origs, render, sets_aside_cleanly, stash_layout, stash_pairs, has_sub, Piece,
};
use crate::text::{
    append_chars, chars_of, copy_chars, decimal, key_code, keys_distinct, keys_longest_first,
    pair_views, push_decimal, replace_chars, replace_each, replace_every, replace_pairs,
    same_chars, split_words, string_of, string_views, trim, trim_ws, utf8_len, views, words,
};
use crate::unicode::{lowercase, to_lowercase};

verus! {

/// Long words and their shorter synonyms, longest word first.
/// Among entries of equal length the order is a fixed choice of this table:
/// the longest-first rule leaves it open, and fixing it keeps the outcome the
/// same from run to run.
pub open spec fn synonym_table() -> Seq<(Seq<char>, Seq<char>)> {
    seq![
        ("approximately"@, "about"@),
        ("unfortunately"@, "sadly"@),
        ("consequently"@, "so"@),
        ("modification"@, "change"@),
        ("nevertheless"@, "but"@),
        ("subsequently"@, "later"@),
        ("demonstrate"@, "show"@),
        ("exceptional"@, "rare"@),
        ("furthermore"@, "also"@),
        ("information"@, "info"@),
        ("investigate"@, "check"@),
        ("magnificent"@, "great"@),
        ("opportunity"@, "chance"@),
        ("participate"@, "join"@),
        ("possibility"@, "chance"@),
        ("requirement"@, "need"@),
        ("significant"@, "big"@),
        ("accomplish"@, "do"@),
        ("additional"@, "more"@),
        ("assistance"@, "help"@),
        ("capability"@, "ability"@),
        ("concerning"@, "about"@),
        ("difficulty"@, "problem"@),
        ("employment"@, "work"@),
        ("equivalent"@, "equal"@),
        ("facilitate"@, "help"@),
        ("individual"@, "person"@),
        ("initialize"@, "start"@),
        ("particular"@, "specific"@),
        ("previously"@, "before"@),
        ("sufficient"@, "enough"@),
        ("throughout"@, "during"@),
        ("understand"@, "know"@),
        ("beginning"@, "start"@),
        ("component"@, "part"@),
        ("determine"@, "find"@),
        ("eliminate"@, "remove"@),
        ("encounter"@, "meet"@),
        ("establish"@, "set"@),
        ("excellent"@, "great"@),
        ("identical"@, "same"@),
        ("implement"@, "do"@),
        ("important"@, "key"@),
        ("necessary"@, "needed"@),
        ("objective"@, "goal"@),
        ("personnel"@, "staff"@),
        ("principal"@, "main"@),
        ("procedure"@, "process"@),
        ("terminate"@, "end"@),
        ("therefore"@, "so"@),
        ("commence"@, "start"@),
        ("endeavor"@, "try"@),
        ("indicate"@, "show"@),
        ("location"@, "place"@),
        ("maintain"@, "keep"@),
        ("numerous"@, "many"@),
        ("purchase"@, "buy"@),
        ("examine"@, "check"@),
        ("however"@, "but"@),
        ("maximum"@, "max"@),
        ("minimum"@, "min"@),
        ("optimum"@, "best"@),
        ("utilize"@, "use"@),
        ("various"@, "many"@),
        ("obtain"@, "get"@)
    ]
}

/// Wordy requests and their concise forms, longest phrase first.
/// Among entries of equal length the order is a fixed choice of this table:
/// the longest-first rule leaves it open, and fixing it keeps the outcome the
/// same from run to run.
pub open spec fn phrase_table() -> Seq<(Seq<char>, Seq<char>)> {
    seq![
        ("any help would be appreciated"@, "please help"@),
        ("to the best of my knowledge"@, "i think"@),
        ("if i understand correctly"@, "if i'm right"@),
        ("build an application that"@, "app to"@),
        ("implement a solution that"@, "solution to"@),
        ("i have a question about"@, "question:"@),
        ("i'm having trouble with"@, "trouble with"@),
        ("what is the best way to"@, "how to"@),
        ("correct me if i'm wrong"@, ""@),
        ("do you think you could"@, "can you"@),
        ("i appreciate your help"@, "thanks"@),
        ("develop a program that"@, "program to"@),
        ("write a function that"@, "function to"@),
        ("it would be great if"@, "please"@),
        ("would it be possible"@, "can you"@),
        ("can you help me with"@, "help with"@),
        ("thank you in advance"@, "thanks"@),
        ("create a script that"@, "script to"@),
        ("design a system that"@, "system to"@),
        ("i'm not sure how to"@, "how to"@),
        ("from my perspective"@, "i think"@),
        ("it seems to me that"@, "i think"@),
        ("i was wondering if"@, "can you"@),
        ("please let me know"@, "tell me"@),
        ("is it possible to"@, "can you"@),
        ("how do i go about"@, "how to"@),
        ("what would be the"@, "what's the"@),
        ("could you please"@, "please"@),
        ("as far as i know"@, "i think"@),
        ("communicate with"@, "talk to"@),
        ("i would like to"@, "i want to"@),
        ("i'm looking for"@, "i need"@),
        ("please help me"@, "help me"@),
        ("would you mind"@, "please"@),
        ("make sure that"@, "ensure"@),
        ("i'm trying to"@, "i want to"@),
        ("in my opinion"@, "i think"@),
        ("interact with"@, "use"@),
        ("take care of"@, "handle"@),
        ("i need to"@, "i must"@),
        ("deal with"@, "handle"@),
        ("work with"@, "use"@)
    ]
}

/// The long words are tried longest first, and no word is listed twice.
pub proof fn law_synonym_table_shape()
    ensures
        keys_longest_first(synonym_table()),
        keys_distinct(synonym_table()),
{
    let t = synonym_table();
    let lens: Seq<nat> = seq![13nat, 13, 12, 12, 12, 12, 11, 11, 11, 11, 11, 11, 11, 11, 11, 11, 11, 10, 10, 10, 10, 10, 10, 10, 10, 10, 10, 10, 10, 10, 10, 10, 10, 9, 9, 9, 9, 9, 9, 9, 9, 9, 9, 9, 9, 9, 9, 9, 9, 9, 8, 8, 8, 8, 8, 8, 8, 7, 7, 7, 7, 7, 7, 7, 6];
    let codes: Seq<(nat, char, char, char, char)> = seq![(13nat, 'a', 'p', 'p', 'r'), (13nat, 'u', 'n', 'f', 'o'), (12nat, 'c', 'o', 'n', 's'), (12nat, 'm', 'o', 'd', 'i'), (12nat, 'n', 'e', 'v', 'e'), (12nat, 's', 'u', 'b', 's'), (11nat, 'd', 'e', 'm', 'o'), (11nat, 'e', 'x', 'c', 'e'), (11nat, 'f', 'u', 'r', 't'), (11nat, 'i', 'n', 'f', 'o'), (11nat, 'i', 'n', 'v', 'e'), (11nat, 'm', 'a', 'g', 'n'), (11nat, 'o', 'p', 'p', 'o'), (11nat, 'p', 'a', 'r', 't'), (11nat, 'p', 'o', 's', 's'), (11nat, 'r', 'e', 'q', 'u'), (11nat, 's', 'i', 'g', 'n'), (10nat, 'a', 'c', 'c', 'o'), (10nat, 'a', 'd', 'd', 'i'), (10nat, 'a', 's', 's', 'i'), (10nat, 'c', 'a', 'p', 'a'), (10nat, 'c', 'o', 'n', 'c'), (10nat, 'd', 'i', 'f', 'f'), (10nat, 'e', 'm', 'p', 'l'), (10nat, 'e', 'q', 'u', 'i'), (10nat, 'f', 'a', 'c', 'i'), (10nat, 'i', 'n', 'd', 'i'), (10nat, 'i', 'n', 'i', 't'), (10nat, 'p', 'a', 'r', 't'), (10nat, 'p', 'r', 'e', 'v'), (10nat, 's', 'u', 'f', 'f'), (10nat, 't', 'h', 'r', 'o'), (10nat, 'u', 'n', 'd', 'e'), (9nat, 'b', 'e', 'g', 'i'), (9nat, 'c', 'o', 'm', 'p'), (9nat, 'd', 'e', 't', 'e'), (9nat, 'e', 'l', 'i', 'm'), (9nat, 'e', 'n', 'c', 'o'), (9nat, 'e', 's', 't', 'a'), (9nat, 'e', 'x', 'c', 'e'), (9nat, 'i', 'd', 'e', 'n'), (9nat, 'i', 'm', 'p', 'l'), (9nat, 'i', 'm', 'p', 'o'), (9nat, 'n', 'e', 'c', 'e'), (9nat, 'o', 'b', 'j', 'e'), (9nat, 'p', 'e', 'r', 's'), (9nat, 'p', 'r', 'i', 'n'), (9nat, 'p', 'r', 'o', 'c'), (9nat, 't', 'e', 'r', 'm'), (9nat, 't', 'h', 'e', 'r'), (8nat, 'c', 'o', 'm', 'm'), (8nat, 'e', 'n', 'd', 'e'), (8nat, 'i', 'n', 'd', 'i'), (8nat, 'l', 'o', 'c', 'a'), (8nat, 'm', 'a', 'i', 'n'), (8nat, 'n', 'u', 'm', 'e'), (8nat, 'p', 'u', 'r', 'c'), (7nat, 'e', 'x', 'a', 'm'), (7nat, 'h', 'o', 'w', 'e'), (7nat, 'm', 'a', 'x', 'i'), (7nat, 'm', 'i', 'n', 'i'), (7nat, 'o', 'p', 't', 'i'), (7nat, 'u', 't', 'i', 'l'), (7nat, 'v', 'a', 'r', 'i'), (6nat, 'o', 'b', 't', 'a')];
    reveal_strlit("approximately");
    crate::text::lemma_ascii_utf8_len("approximately"@);
    reveal_strlit("unfortunately");
    crate::text::lemma_ascii_utf8_len("unfortunately"@);
    reveal_strlit("consequently");
    crate::text::lemma_ascii_utf8_len("consequently"@);
    reveal_strlit("modification");
    crate::text::lemma_ascii_utf8_len("modification"@);
    reveal_strlit("nevertheless");
    crate::text::lemma_ascii_utf8_len("nevertheless"@);
    reveal_strlit("subsequently");
    crate::text::lemma_ascii_utf8_len("subsequently"@);
    reveal_strlit("demonstrate");
    crate::text::lemma_ascii_utf8_len("demonstrate"@);
    reveal_strlit("exceptional");
    crate::text::lemma_ascii_utf8_len("exceptional"@);
    reveal_strlit("furthermore");
    crate::text::lemma_ascii_utf8_len("furthermore"@);
    reveal_strlit("information");
    crate::text::lemma_ascii_utf8_len("information"@);
    reveal_strlit("investigate");
    crate::text::lemma_ascii_utf8_len("investigate"@);
    reveal_strlit("magnificent");
    crate::text::lemma_ascii_utf8_len("magnificent"@);
    reveal_strlit("opportunity");
    crate::text::lemma_ascii_utf8_len("opportunity"@);
    reveal_strlit("participate");
    crate::text::lemma_ascii_utf8_len("participate"@);
    reveal_strlit("possibility");
    crate::text::lemma_ascii_utf8_len("possibility"@);
    reveal_strlit("requirement");
    crate::text::lemma_ascii_utf8_len("requirement"@);
    reveal_strlit("significant");
    crate::text::lemma_ascii_utf8_len("significant"@);
    reveal_strlit("accomplish");
    crate::text::lemma_ascii_utf8_len("accomplish"@);
    reveal_strlit("additional");
    crate::text::lemma_ascii_utf8_len("additional"@);
    reveal_strlit("assistance");
    crate::text::lemma_ascii_utf8_len("assistance"@);
    reveal_strlit("capability");
    crate::text::lemma_ascii_utf8_len("capability"@);
    reveal_strlit("concerning");
    crate::text::lemma_ascii_utf8_len("concerning"@);
    reveal_strlit("difficulty");
    crate::text::lemma_ascii_utf8_len("difficulty"@);
    reveal_strlit("employment");
    crate::text::lemma_ascii_utf8_len("employment"@);
    reveal_strlit("equivalent");
    crate::text::lemma_ascii_utf8_len("equivalent"@);
    reveal_strlit("facilitate");
    crate::text::lemma_ascii_utf8_len("facilitate"@);
    reveal_strlit("individual");
    crate::text::lemma_ascii_utf8_len("individual"@);
    reveal_strlit("initialize");
    crate::text::lemma_ascii_utf8_len("initialize"@);
    reveal_strlit("particular");
    crate::text::lemma_ascii_utf8_len("particular"@);
    reveal_strlit("previously");
    crate::text::lemma_ascii_utf8_len("previously"@);
    reveal_strlit("sufficient");
    crate::text::lemma_ascii_utf8_len("sufficient"@);
    reveal_strlit("throughout");
    crate::text::lemma_ascii_utf8_len("throughout"@);
    reveal_strlit("understand");
    crate::text::lemma_ascii_utf8_len("understand"@);
    reveal_strlit("beginning");
    crate::text::lemma_ascii_utf8_len("beginning"@);
    reveal_strlit("component");
    crate::text::lemma_ascii_utf8_len("component"@);
    reveal_strlit("determine");
    crate::text::lemma_ascii_utf8_len("determine"@);
    reveal_strlit("eliminate");
    crate::text::lemma_ascii_utf8_len("eliminate"@);
    reveal_strlit("encounter");
    crate::text::lemma_ascii_utf8_len("encounter"@);
    reveal_strlit("establish");
    crate::text::lemma_ascii_utf8_len("establish"@);
    reveal_strlit("excellent");
    crate::text::lemma_ascii_utf8_len("excellent"@);
    reveal_strlit("identical");
    crate::text::lemma_ascii_utf8_len("identical"@);
    reveal_strlit("implement");
    crate::text::lemma_ascii_utf8_len("implement"@);
    reveal_strlit("important");
    crate::text::lemma_ascii_utf8_len("important"@);
    reveal_strlit("necessary");
    crate::text::lemma_ascii_utf8_len("necessary"@);
    reveal_strlit("objective");
    crate::text::lemma_ascii_utf8_len("objective"@);
    reveal_strlit("personnel");
    crate::text::lemma_ascii_utf8_len("personnel"@);
    reveal_strlit("principal");
    crate::text::lemma_ascii_utf8_len("principal"@);
    reveal_strlit("procedure");
    crate::text::lemma_ascii_utf8_len("procedure"@);
    reveal_strlit("terminate");
    crate::text::lemma_ascii_utf8_len("terminate"@);
    reveal_strlit("therefore");
    crate::text::lemma_ascii_utf8_len("therefore"@);
    reveal_strlit("commence");
    crate::text::lemma_ascii_utf8_len("commence"@);
    reveal_strlit("endeavor");
    crate::text::lemma_ascii_utf8_len("endeavor"@);
    reveal_strlit("indicate");
    crate::text::lemma_ascii_utf8_len("indicate"@);
    reveal_strlit("location");
    crate::text::lemma_ascii_utf8_len("location"@);
    reveal_strlit("maintain");
    crate::text::lemma_ascii_utf8_len("maintain"@);
    reveal_strlit("numerous");
    crate::text::lemma_ascii_utf8_len("numerous"@);
    reveal_strlit("purchase");
    crate::text::lemma_ascii_utf8_len("purchase"@);
    reveal_strlit("examine");
    crate::text::lemma_ascii_utf8_len("examine"@);
    reveal_strlit("however");
    crate::text::lemma_ascii_utf8_len("however"@);
    reveal_strlit("maximum");
    crate::text::lemma_ascii_utf8_len("maximum"@);
    reveal_strlit("minimum");
    crate::text::lemma_ascii_utf8_len("minimum"@);
    reveal_strlit("optimum");
    crate::text::lemma_ascii_utf8_len("optimum"@);
    reveal_strlit("utilize");
    crate::text::lemma_ascii_utf8_len("utilize"@);
    reveal_strlit("various");
    crate::text::lemma_ascii_utf8_len("various"@);
    reveal_strlit("obtain");
    crate::text::lemma_ascii_utf8_len("obtain"@);
    assert forall|i: int| 0 <= i < t.len() implies utf8_len(#[trigger] t[i].0) == lens[i] by {}
    crate::text::lemma_keys_longest_first(t, lens);
    assert forall|i: int| 0 <= i < t.len() implies key_code(#[trigger] t[i].0) == codes[i] by {}
    crate::text::lemma_keys_distinct(t, codes);
}

/// The wordy requests are tried longest first, and no request is listed twice.
pub proof fn law_phrase_table_shape()
    ensures
        keys_longest_first(phrase_table()),
        keys_distinct(phrase_table()),
{
    let t = phrase_table();
    let lens: Seq<nat> = seq![29nat, 27, 25, 25, 25, 23, 23, 23, 23, 22, 22, 22, 21, 20, 20, 20, 20, 20, 20, 19, 19, 19, 18, 18, 17, 17, 17, 16, 16, 16, 15, 15, 14, 14, 14, 13, 13, 13, 12, 9, 9, 9];
    let codes: Seq<(nat, char, char, char, char)> = seq![(29nat, 'a', 'n', 'y', ' '), (27nat, 't', 'o', ' ', 't'), (25nat, 'i', 'f', ' ', 'i'), (25nat, 'b', 'u', 'i', 'l'), (25nat, 'i', 'm', 'p', 'l'), (23nat, 'i', ' ', 'h', 'a'), (23nat, 'i', '\'', 'm', ' '), (23nat, 'w', 'h', 'a', 't'), (23nat, 'c', 'o', 'r', 'r'), (22nat, 'd', 'o', ' ', 'y'), (22nat, 'i', ' ', 'a', 'p'), (22nat, 'd', 'e', 'v', 'e'), (21nat, 'w', 'r', 'i', 't'), (20nat, 'i', 't', ' ', 'w'), (20nat, 'w', 'o', 'u', 'l'), (20nat, 'c', 'a', 'n', ' '), (20nat, 't', 'h', 'a', 'n'), (20nat, 'c', 'r', 'e', 'a'), (20nat, 'd', 'e', 's', 'i'), (19nat, 'i', '\'', 'm', ' '), (19nat, 'f', 'r', 'o', 'm'), (19nat, 'i', 't', ' ', 's'), (18nat, 'i', ' ', 'w', 'a'), (18nat, 'p', 'l', 'e', 'a'), (17nat, 'i', 's', ' ', 'i'), (17nat, 'h', 'o', 'w', ' '), (17nat, 'w', 'h', 'a', 't'), (16nat, 'c', 'o', 'u', 'l'), (16nat, 'a', 's', ' ', 'f'), (16nat, 'c', 'o', 'm', 'm'), (15nat, 'i', ' ', 'w', 'o'), (15nat, 'i', '\'', 'm', ' '), (14nat, 'p', 'l', 'e', 'a'), (14nat, 'w', 'o', 'u', 'l'), (14nat, 'm', 'a', 'k', 'e'), (13nat, 'i', '\'', 'm', ' '), (13nat, 'i', 'n', ' ', 'm'), (13nat, 'i', 'n', 't', 'e'), (12nat, 't', 'a', 'k', 'e'), (9nat, 'i', ' ', 'n', 'e'), (9nat, 'd', 'e', 'a', 'l'), (9nat, 'w', 'o', 'r', 'k')];
    reveal_strlit("any help would be appreciated");
    crate::text::lemma_ascii_utf8_len("any help would be appreciated"@);
    reveal_strlit("to the best of my knowledge");
    crate::text::lemma_ascii_utf8_len("to the best of my knowledge"@);
    reveal_strlit("if i understand correctly");
    crate::text::lemma_ascii_utf8_len("if i understand correctly"@);
    reveal_strlit("build an application that");
    crate::text::lemma_ascii_utf8_len("build an application that"@);
    reveal_strlit("implement a solution that");
    crate::text::lemma_ascii_utf8_len("implement a solution that"@);
    reveal_strlit("i have a question about");
    crate::text::lemma_ascii_utf8_len("i have a question about"@);
    reveal_strlit("i'm having trouble with");
    crate::text::lemma_ascii_utf8_len("i'm having trouble with"@);
    reveal_strlit("what is the best way to");
    crate::text::lemma_ascii_utf8_len("what is the best way to"@);
    reveal_strlit("correct me if i'm wrong");
    crate::text::lemma_ascii_utf8_len("correct me if i'm wrong"@);
    reveal_strlit("do you think you could");
    crate::text::lemma_ascii_utf8_len("do you think you could"@);
    reveal_strlit("i appreciate your help");
    crate::text::lemma_ascii_utf8_len("i appreciate your help"@);
    reveal_strlit("develop a program that");
    crate::text::lemma_ascii_utf8_len("develop a program that"@);
    reveal_strlit("write a function that");
    crate::text::lemma_ascii_utf8_len("write a function that"@);
    reveal_strlit("it would be great if");
    crate::text::lemma_ascii_utf8_len("it would be great if"@);
    reveal_strlit("would it be possible");
    crate::text::lemma_ascii_utf8_len("would it be possible"@);
    reveal_strlit("can you help me with");
    crate::text::lemma_ascii_utf8_len("can you help me with"@);
    reveal_strlit("thank you in advance");
    crate::text::lemma_ascii_utf8_len("thank you in advance"@);
    reveal_strlit("create a script that");
    crate::text::lemma_ascii_utf8_len("create a script that"@);
    reveal_strlit("design a system that");
    crate::text::lemma_ascii_utf8_len("design a system that"@);
    reveal_strlit("i'm not sure how to");
    crate::text::lemma_ascii_utf8_len("i'm not sure how to"@);
    reveal_strlit("from my perspective");
    crate::text::lemma_ascii_utf8_len("from my perspective"@);
    reveal_strlit("it seems to me that");
    crate::text::lemma_ascii_utf8_len("it seems to me that"@);
    reveal_strlit("i was wondering if");
    crate::text::lemma_ascii_utf8_len("i was wondering if"@);
    reveal_strlit("please let me know");
    crate::text::lemma_ascii_utf8_len("please let me know"@);
    reveal_strlit("is it possible to");
    crate::text::lemma_ascii_utf8_len("is it possible to"@);
    reveal_strlit("how do i go about");
    crate::text::lemma_ascii_utf8_len("how do i go about"@);
    reveal_strlit("what would be the");
    crate::text::lemma_ascii_utf8_len("what would be the"@);
    reveal_strlit("could you please");
    crate::text::lemma_ascii_utf8_len("could you please"@);
    reveal_strlit("as far as i know");
    crate::text::lemma_ascii_utf8_len("as far as i know"@);
    reveal_strlit("communicate with");
    crate::text::lemma_ascii_utf8_len("communicate with"@);
    reveal_strlit("i would like to");
    crate::text::lemma_ascii_utf8_len("i would like to"@);
    reveal_strlit("i'm looking for");
    crate::text::lemma_ascii_utf8_len("i'm looking for"@);
    reveal_strlit("please help me");
    crate::text::lemma_ascii_utf8_len("please help me"@);
    reveal_strlit("would you mind");
    crate::text::lemma_ascii_utf8_len("would you mind"@);
    reveal_strlit("make sure that");
    crate::text::lemma_ascii_utf8_len("make sure that"@);
    reveal_strlit("i'm trying to");
    crate::text::lemma_ascii_utf8_len("i'm trying to"@);
    reveal_strlit("in my opinion");
    crate::text::lemma_ascii_utf8_len("in my opinion"@);
    reveal_strlit("interact with");
    crate::text::lemma_ascii_utf8_len("interact with"@);
    reveal_strlit("take care of");
    crate::text::lemma_ascii_utf8_len("take care of"@);
    reveal_strlit("i need to");
    crate::text::lemma_ascii_utf8_len("i need to"@);
    reveal_strlit("deal with");
    crate::text::lemma_ascii_utf8_len("deal with"@);
    reveal_strlit("work with");
    crate::text::lemma_ascii_utf8_len("work with"@);
    assert forall|i: int| 0 <= i < t.len() implies utf8_len(#[trigger] t[i].0) == lens[i] by {}
    crate::text::lemma_keys_longest_first(t, lens);
    assert forall|i: int| 0 <= i < t.len() implies key_code(#[trigger] t[i].0) == codes[i] by {}
    crate::text::lemma_keys_distinct(t, codes);
}

/// The table of [`synonym_table`] as string pairs.
fn synonym_pairs() -> (v: Vec<(&'static str, &'static str)>)
    ensures
        pair_views(v@) == synonym_table(),
{
    let v = vec![
        ("approximately", "about"),
        ("unfortunately", "sadly"),
        ("consequently", "so"),
        ("modification", "change"),
        ("nevertheless", "but"),
        ("subsequently", "later"),
        ("demonstrate", "show"),
        ("exceptional", "rare"),
        ("furthermore", "also"),
        ("information", "info"),
        ("investigate", "check"),
        ("magnificent", "great"),
        ("opportunity", "chance"),
        ("participate", "join"),
        ("possibility", "chance"),
        ("requirement", "need"),
        ("significant", "big"),
        ("accomplish", "do"),
        ("additional", "more"),
        ("assistance", "help"),
        ("capability", "ability"),
        ("concerning", "about"),
        ("difficulty", "problem"),
        ("employment", "work"),
        ("equivalent", "equal"),
        ("facilitate", "help"),
        ("individual", "person"),
        ("initialize", "start"),
        ("particular", "specific"),
        ("previously", "before"),
        ("sufficient", "enough"),
        ("throughout", "during"),
        ("understand", "know"),
        ("beginning", "start"),
        ("component", "part"),
        ("determine", "find"),
        ("eliminate", "remove"),
        ("encounter", "meet"),
        ("establish", "set"),
        ("excellent", "great"),
        ("identical", "same"),
        ("implement", "do"),
        ("important", "key"),
        ("necessary", "needed"),
        ("objective", "goal"),
        ("personnel", "staff"),
        ("principal", "main"),
        ("procedure", "process"),
        ("terminate", "end"),
        ("therefore", "so"),
        ("commence", "start"),
        ("endeavor", "try"),
        ("indicate", "show"),
        ("location", "place"),
        ("maintain", "keep"),
        ("numerous", "many"),
        ("purchase", "buy"),
        ("examine", "check"),
        ("however", "but"),
        ("maximum", "max"),
        ("minimum", "min"),
        ("optimum", "best"),
        ("utilize", "use"),
        ("various", "many"),
        ("obtain", "get")
    ];
    assert(pair_views(v@) =~= synonym_table());
    v
}

/// The table of [`phrase_table`] as string pairs.
fn phrase_pairs() -> (v: Vec<(&'static str, &'static str)>)
    ensures
        pair_views(v@) == phrase_table(),
{
    let v = vec![
        ("any help would be appreciated", "please help"),
        ("to the best of my knowledge", "i think"),
        ("if i understand correctly", "if i'm right"),
        ("build an application that", "app to"),
        ("implement a solution that", "solution to"),
        ("i have a question about", "question:"),
        ("i'm having trouble with", "trouble with"),
        ("what is the best way to", "how to"),
        ("correct me if i'm wrong", ""),
        ("do you think you could", "can you"),
        ("i appreciate your help", "thanks"),
        ("develop a program that", "program to"),
        ("write a function that", "function to"),
        ("it would be great if", "please"),
        ("would it be possible", "can you"),
        ("can you help me with", "help with"),
        ("thank you in advance", "thanks"),
        ("create a script that", "script to"),
        ("design a system that", "system to"),
        ("i'm not sure how to", "how to"),
        ("from my perspective", "i think"),
        ("it seems to me that", "i think"),
        ("i was wondering if", "can you"),
        ("please let me know", "tell me"),
        ("is it possible to", "can you"),
        ("how do i go about", "how to"),
        ("what would be the", "what's the"),
        ("could you please", "please"),
        ("as far as i know", "i think"),
        ("communicate with", "talk to"),
        ("i would like to", "i want to"),
        ("i'm looking for", "i need"),
        ("please help me", "help me"),
        ("would you mind", "please"),
        ("make sure that", "ensure"),
        ("i'm trying to", "i want to"),
        ("in my opinion", "i think"),
        ("interact with", "use"),
        ("take care of", "handle"),
        ("i need to", "i must"),
        ("deal with", "handle"),
        ("work with", "use")
    ];
    assert(pair_views(v@) =~= phrase_table());
    v
}

/// Pattern of fenced code blocks (non-greedy between two triple backticks).
pub open spec fn code_block_pattern() -> Seq<char> {
    "```[\\s\\S]*?```"@
}

/// Pattern of inline code between single backticks.
pub open spec fn inline_code_pattern() -> Seq<char> {
    "`[^`]+`"@
}

/// Pattern of http and https URLs.
pub open spec fn url_pattern() -> Seq<char> {
    "https?://[^\\s]+"@
}

/// Pattern of the placeholders that stand for set-aside content.
pub open spec fn placeholder_pattern() -> Seq<char> {
    "__[A-Z_]+_\\d+__"@
}

/// Pattern of a word boundary.
pub open spec fn word_boundary_pattern() -> Seq<char> {
    "\\b"@
}

/// The pattern that matches `word` as a whole word.
pub open spec fn whole_word_pattern(word: Seq<char>) -> Seq<char> {
    "\\b"@ + regex_escaped(word) + "\\b"@
}

/// The regular expression that matches `word` as a whole word: the escaped
/// word between two word boundaries.
pub fn whole_word_regex(word: &str) -> (r: String)
    ensures
        r@ == whole_word_pattern(word@),
{
    let escaped = escape(word);
    let mut pattern = String::new();
    pattern.append("\\b");
    pattern.append(escaped.as_str());
    pattern.append("\\b");
    pattern
}

/// `s` with `pair`'s word replaced by its synonym wherever it stands as a whole
/// word; unchanged when the regex crate refuses the pattern.
pub open spec fn synonym_replaced(s: Seq<char>, pair: (Seq<char>, Seq<char>)) -> Seq<char> {
    let pattern = whole_word_pattern(pair.0);
    if regex_accepts(pattern) {
        regex_replace_all(pattern, s, pair.1)
    } else {
        s
    }
}

/// `s` after every pair of `pairs` in turn has been applied as a whole-word replacement.
pub open spec fn synonyms_replaced(s: Seq<char>, pairs: Seq<(Seq<char>, Seq<char>)>) -> Seq<char>
    decreases pairs.len(),
{
    if pairs.len() == 0 {
        s
    } else {
        synonyms_replaced(synonym_replaced(s, pairs[0]), pairs.drop_first())
    }
}

/// The lowercased text with every long word of the table replaced by its synonym.
pub open spec fn with_synonyms(s: Seq<char>) -> Seq<char> {
    synonyms_replaced(lowercase(s), synonym_table())
}

/// `prefix`, the decimal index `k`, then `suffix`.
pub open spec fn marker(prefix: Seq<char>, k: nat, suffix: Seq<char>) -> Seq<char> {
    prefix + decimal(k) + suffix
}

/// `s` after replacing the first `n` texts of `ms`, in order, by their markers.
pub open spec fn stash_text(
    s: Seq<char>,
    ms: Seq<Seq<char>>,
    prefix: Seq<char>,
    suffix: Seq<char>,
    n: nat,
) -> Seq<char>
    decreases n,
{
    if n == 0 {
        s
    } else {
        let k: nat = (n - 1) as nat;
        replace_every(stash_text(s, ms, prefix, suffix, k), ms[k as int], marker(prefix, k, suffix))
    }
}

/// The (marker, text) pairs for the texts of `ms`.
pub open spec fn stash_items(ms: Seq<Seq<char>>, prefix: Seq<char>, suffix: Seq<char>) -> Seq<(Seq<char>, Seq<char>)> {
    Seq::new(ms.len(), |k: int| (marker(prefix, k as nat, suffix), ms[k]))
}

/// `s` after replacing, for the first `n` texts of `ms` in order, the lowercased
/// marker by the text.
pub open spec fn unstash_lowered(
    s: Seq<char>,
    ms: Seq<Seq<char>>,
    prefix: Seq<char>,
    suffix: Seq<char>,
    n: nat,
) -> Seq<char>
    decreases n,
{
    if n == 0 {
        s
    } else {
        let k: nat = (n - 1) as nat;
        replace_every(unstash_lowered(s, ms, prefix, suffix, k), lowercase(marker(prefix, k, suffix)), ms[k as int])
    }
}

/// The phrase optimization of `s`: placeholders set aside, the text lowercased,
/// wordy phrases shortened (longest first), placeholders put back, double
/// spaces halved once, and the result trimmed.
pub open spec fn phrase_optimized(s: Seq<char>) -> Seq<char> {
    let phs = regex_find_all(placeholder_pattern(), s);
    let hidden = stash_text(s, phs, "TEMP_PLACEHOLDER_"@, ""@, phs.len());
    let shortened = replace_each(lowercase(hidden), phrase_table());
    let back = unstash_lowered(shortened, phs, "TEMP_PLACEHOLDER_"@, ""@, phs.len());
    trim_ws(replace_every(back, "  "@, " "@))
}

/// Each synonym replaces its long word only as a whole word: the regular
/// expression handed to the replacement is the word, escaped so that it
/// matches literally, between two word-boundary assertions `\b`.
pub proof fn law_synonym_whole_word(s: Seq<char>, pair: (Seq<char>, Seq<char>))
    ensures
        ({
            let p = "\\b"@ + regex_escaped(pair.0) + "\\b"@;
            synonym_replaced(s, pair) == if regex_accepts(p) {
                regex_replace_all(p, s, pair.1)
            } else {
                s
            }
        }),
{
}

/// Phrase optimization applies the phrase table in its own order, longest
/// phrase first: on a text without placeholders it lowercases, replaces each
/// table phrase in turn, halves double spaces once and trims.
pub proof fn law_phrases_longest_first(s: Seq<char>)
    requires
        regex_find_all(placeholder_pattern(), s).len() == 0,
    ensures
        phrase_optimized(s) == trim_ws(replace_every(replace_each(lowercase(s), phrase_table()), "  "@, " "@)),
        keys_longest_first(phrase_table()),
{
    law_phrase_table_shape();
}

/// The text with code blocks, then inline code, then URLs replaced by
/// numbered placeholders, and the (placeholder, original) pairs in that order.
pub open spec fn preserved(s: Seq<char>) -> (Seq<char>, Seq<(Seq<char>, Seq<char>)>) {
    let codes = regex_find_all(code_block_pattern(), s);
    let s1 = stash_text(s, codes, "__CODE_BLOCK_"@, "__"@, codes.len());
    let inline = regex_find_all(inline_code_pattern(), s1);
    let s2 = stash_text(s1, inline, "__INLINE_CODE_"@, "__"@, inline.len());
    let urls = regex_find_all(url_pattern(), s2);
    let s3 = stash_text(s2, urls, "__URL_"@, "__"@, urls.len());
    (
        s3,
        stash_items(codes, "__CODE_BLOCK_"@, "__"@) + stash_items(inline, "__INLINE_CODE_"@, "__"@)
            + stash_items(urls, "__URL_"@, "__"@),
    )
}

/// `s` after each (placeholder, original) pair in turn puts the original back
/// in place of the placeholder and of its lowercased form.
pub open spec fn restored(s: Seq<char>, items: Seq<(Seq<char>, Seq<char>)>) -> Seq<char>
    decreases items.len(),
{
    if items.len() == 0 {
        s
    } else {
        let (ph, original) = items[0];
        restored(
            replace_every(replace_every(s, ph, original), lowercase(ph), original),
            items.drop_first(),
        )
    }
}

/// Setting aside the first `n` texts of `ms` behind markers is setting aside
/// the originals of their (marker, text) pairs in turn.
proof fn lemma_stash_text_pairs(s: Seq<char>, ms: Seq<Seq<char>>, prefix: Seq<char>, suffix: Seq<char>, n: nat)
    requires
        n <= ms.len(),
    ensures
        stash_text(s, ms, prefix, suffix, n) == stash_pairs(s, stash_items(ms, prefix, suffix), n),
    decreases n,
{
    if n > 0 {
        lemma_stash_text_pairs(s, ms, prefix, suffix, (n - 1) as nat);
        let items = stash_items(ms, prefix, suffix);
        assert(items[n - 1] == (marker(prefix, (n - 1) as nat, suffix), ms[n - 1]));
    }
}

/// Setting aside pairs taken from the front of a longer list.
proof fn lemma_stash_pairs_prefix(
    s: Seq<char>,
    a: Seq<(Seq<char>, Seq<char>)>,
    b: Seq<(Seq<char>, Seq<char>)>,
    n: nat,
)
    requires
        n <= a.len(),
    ensures
        stash_pairs(s, a + b, n) == stash_pairs(s, a, n),
    decreases n,
{
    if n > 0 {
        lemma_stash_pairs_prefix(s, a, b, (n - 1) as nat);
        assert((a + b)[n - 1] == a[n - 1]);
    }
}

/// Setting aside the pairs of `a + b` is setting aside those of `a`, then
/// those of `b`.
proof fn lemma_stash_pairs_append(
    s: Seq<char>,
    a: Seq<(Seq<char>, Seq<char>)>,
    b: Seq<(Seq<char>, Seq<char>)>,
    n: nat,
)
    requires
        n <= b.len(),
    ensures
        stash_pairs(s, a + b, a.len() + n) == stash_pairs(stash_pairs(s, a, a.len()), b, n),
    decreases n,
{
    if n == 0 {
        lemma_stash_pairs_prefix(s, a, b, a.len());
    } else {
        lemma_stash_pairs_append(s, a, b, (n - 1) as nat);
        assert((a + b)[a.len() + n - 1] == b[n - 1]);
        assert((a.len() + n - 1) as nat == a.len() + (n - 1) as nat);
    }
}

/// The text that preservation leaves is the prompt with the originals of its
/// pairs set aside in turn.
proof fn lemma_preserved_stashes(s: Seq<char>)
    ensures
        preserved(s).0 == stash_pairs(s, preserved(s).1, preserved(s).1.len()),
{
    let codes = regex_find_all(code_block_pattern(), s);
    let s1 = stash_text(s, codes, "__CODE_BLOCK_"@, "__"@, codes.len());
    let inline = regex_find_all(inline_code_pattern(), s1);
    let s2 = stash_text(s1, inline, "__INLINE_CODE_"@, "__"@, inline.len());
    let urls = regex_find_all(url_pattern(), s2);
    let a = stash_items(codes, "__CODE_BLOCK_"@, "__"@);
    let b = stash_items(inline, "__INLINE_CODE_"@, "__"@);
    let c = stash_items(urls, "__URL_"@, "__"@);
    lemma_stash_text_pairs(s, codes, "__CODE_BLOCK_"@, "__"@, codes.len());
    lemma_stash_text_pairs(s1, inline, "__INLINE_CODE_"@, "__"@, inline.len());
    lemma_stash_text_pairs(s2, urls, "__URL_"@, "__"@, urls.len());
    lemma_stash_pairs_append(s, a, b, b.len());
    lemma_stash_pairs_append(s, a + b, c, c.len());
    assert(preserved(s).1 == a + b + c);
}

/// Whether `p` is the prefix of one of the kinds of placeholder.
pub open spec fn placeholder_prefix(p: Seq<char>) -> bool {
    p == "__CODE_BLOCK_"@ || p == "__INLINE_CODE_"@ || p == "__URL_"@
}

/// The prefixes open with `__` and a letter, end with `_`, hold no other
/// `__`, and differ from each other in their third character.
proof fn lemma_prefix_shape(p: Seq<char>)
    requires
        placeholder_prefix(p),
    ensures
        p.len() >= 3,
        p[0] == '_',
        p[1] == '_',
        p[2] != '_',
        p.last() == '_',
        no_doubled(p.skip(1)),
        p == "__CODE_BLOCK_"@ ==> p[2] == 'C',
        p == "__INLINE_CODE_"@ ==> p[2] == 'I',
        p == "__URL_"@ ==> p[2] == 'U',
{
    reveal_strlit("__CODE_BLOCK_");
    reveal_strlit("__INLINE_CODE_");
    reveal_strlit("__URL_");
    let q = p.skip(1);
    assert forall|i: int| 0 <= i < q.len() - 1 implies !#[trigger] doubled_at(q, i) by {
        assert(q[i] == p[i + 1] && q[i + 1] == p[i + 2]);
    }
}

/// A placeholder is bracketed: `__`, a name holding no `__`, `__`.
proof fn lemma_marker_bracketed(p: Seq<char>, n: nat)
    requires
        placeholder_prefix(p),
    ensures
        bracketed(marker(p, n, "__"@)),
{
    reveal_strlit("__");
    lemma_prefix_shape(p);
    crate::text::lemma_decimal_digits(n);
    let d = decimal(n);
    let f = marker(p, n, "__"@);
    assert(f == p + d + seq!['_', '_']);
    let sub = f.subrange(1, f.len() - 1);
    let q = p.skip(1);
    assert forall|i: int| 0 <= i < sub.len() - 1 implies !#[trigger] doubled_at(sub, i) by {
        assert(sub[i] == f[i + 1] && sub[i + 1] == f[i + 2]);
        if i + 2 < p.len() {
            assert(!doubled_at(q, i));
            assert(q[i] == p[i + 1] && q[i + 1] == p[i + 2]);
        } else if i + 2 < p.len() + d.len() {
            assert(f[i + 2] == d[i + 2 - p.len()]);
            assert(crate::text::is_digit(d[i + 2 - p.len()]));
        } else {
            assert(f[i + 1] == d[i + 1 - p.len()]);
            assert(crate::text::is_digit(d[i + 1 - p.len()]));
        }
    }
}

/// Placeholders with different prefixes or numbers differ.
proof fn lemma_marker_distinct(p: Seq<char>, a: nat, q: Seq<char>, b: nat)
    requires
        placeholder_prefix(p),
        placeholder_prefix(q),
        marker(p, a, "__"@) == marker(q, b, "__"@),
    ensures
        p == q,
        a == b,
{
    lemma_prefix_shape(p);
    lemma_prefix_shape(q);
    let f = marker(p, a, "__"@);
    assert(f[2] == p[2]);
    assert(marker(q, b, "__"@)[2] == q[2]);
    reveal_strlit("__CODE_BLOCK_");
    reveal_strlit("__INLINE_CODE_");
    reveal_strlit("__URL_");
    assert(p == q);
    let da = decimal(a);
    let db = decimal(b);
    reveal_strlit("__");
    assert(f == p + da + "__"@);
    assert(marker(q, b, "__"@) == p + db + "__"@);
    assert((p + da + "__"@).len() == p.len() + da.len() + 2);
    assert((p + db + "__"@).len() == p.len() + db.len() + 2);
    assert(da.len() == db.len());
    assert(da =~= f.subrange(p.len() as int, (p.len() + da.len()) as int));
    assert(db =~= marker(q, b, "__"@).subrange(p.len() as int, (p.len() + db.len()) as int));
    crate::text::law_decimal_injective(a, b);
}

/// The placeholder of the pair at `k` of what preservation sets aside: its
/// kind's prefix and its number within the kind.
proof fn lemma_preserved_marker(s: Seq<char>, k: int) -> (r: (Seq<char>, nat))
    requires
        0 <= k < preserved(s).1.len(),
    ensures
        placeholder_prefix(r.0),
        preserved(s).1[k].0 == marker(r.0, r.1, "__"@),
        forall|j: int|
            0 <= j < preserved(s).1.len() && j != k ==> preserved(s).1[j].0 != preserved(s).1[k].0,
{
    let codes = regex_find_all(code_block_pattern(), s);
    let s1 = stash_text(s, codes, "__CODE_BLOCK_"@, "__"@, codes.len());
    let inline = regex_find_all(inline_code_pattern(), s1);
    let s2 = stash_text(s1, inline, "__INLINE_CODE_"@, "__"@, inline.len());
    let urls = regex_find_all(url_pattern(), s2);
    let a = stash_items(codes, "__CODE_BLOCK_"@, "__"@);
    let b = stash_items(inline, "__INLINE_CODE_"@, "__"@);
    let c = stash_items(urls, "__URL_"@, "__"@);
    let g = a + b + c;
    assert(preserved(s).1 == g);
    let na = a.len() as int;
    let nb = b.len() as int;
    let kind = |i: int|
        if i < na {
            ("__CODE_BLOCK_"@, i as nat)
        } else if i < na + nb {
            ("__INLINE_CODE_"@, (i - na) as nat)
        } else {
            ("__URL_"@, (i - na - nb) as nat)
        };
    assert forall|i: int| 0 <= i < g.len() implies placeholder_prefix(#[trigger] kind(i).0) && g[i].0 == marker(
        kind(i).0,
        kind(i).1,
        "__"@,
    ) by {
        if i < na {
            assert(g[i] == a[i]);
        } else if i < na + nb {
            assert(g[i] == b[i - na]);
        } else {
            assert(g[i] == c[i - na - nb]);
        }
    }
    assert forall|j: int| 0 <= j < g.len() && j != k implies g[j].0 != g[k].0 by {
        assert(placeholder_prefix(kind(j).0) && g[j].0 == marker(kind(j).0, kind(j).1, "__"@));
        assert(placeholder_prefix(kind(k).0) && g[k].0 == marker(kind(k).0, kind(k).1, "__"@));
        if g[j].0 == g[k].0 {
            lemma_marker_distinct(kind(j).0, kind(j).1, kind(k).0, kind(k).1);
            lemma_prefix_shape(kind(j).0);
            lemma_prefix_shape(kind(k).0);
            reveal_strlit("__CODE_BLOCK_");
            reveal_strlit("__INLINE_CODE_");
            reveal_strlit("__URL_");
            assert("__CODE_BLOCK_"@[2] != "__INLINE_CODE_"@[2]);
            assert("__CODE_BLOCK_"@[2] != "__URL_"@[2]);
            assert("__INLINE_CODE_"@[2] != "__URL_"@[2]);
        }
    }
    assert(placeholder_prefix(kind(k).0) && g[k].0 == marker(kind(k).0, kind(k).1, "__"@));
    kind(k)
}

/// Whether the placeholder of the pair at `k` of `items`, and its lowercased
/// form, are put back cleanly into a text that came from `s`: the prompt does
/// not spell either's name, the lowercased form is bracketed too, and it is no
/// other pair's placeholder.
pub open spec fn restores_cleanly(s: Seq<char>, items: Seq<(Seq<char>, Seq<char>)>, k: int) -> bool {
    let low = lowercase(items[k].0);
    &&& !has_sub(s, inner(items[k].0))
    &&& bracketed(low)
    &&& !has_sub(s, inner(low))
    &&& forall|j: int| 0 <= j < items.len() && j != k ==> #[trigger] items[j].0 != low
}

/// The lowercased placeholders of (placeholder, original) pairs.
pub open spec fn lows(items: Seq<(Seq<char>, Seq<char>)>) -> Seq<Seq<char>> {
    items.map_values(|p: (Seq<char>, Seq<char>)| lowercase(p.0))
}

/// Whether every item among `ps` is still to be restored from the pair `k`
/// on: a placeholder `j` of the `n` pairs or, where `lowered`, also its
/// lowercased form `n + j`.
pub open spec fn pending(ps: Seq<Piece>, k: nat, n: nat, lowered: bool) -> bool {
    forall|i: int|
        0 <= i < ps.len() ==> (#[trigger] ps[i] matches Piece::Itm(j) ==> (k <= j < n || (lowered && n + k <= j < 2
            * n)))
}

/// Whether the placeholders of `items` and their lowercased forms can all be
/// told apart: no two lowercased forms agree, and none is a placeholder.
pub open spec fn lowered_apart(items: Seq<(Seq<char>, Seq<char>)>) -> bool {
    &&& forall|i: int, j: int|
        0 <= i < items.len() && 0 <= j < items.len() && i != j ==> #[trigger] lowercase(items[i].0)
            != #[trigger] lowercase(items[j].0)
    &&& forall|i: int, j: int|
        0 <= i < items.len() && 0 <= j < items.len() ==> #[trigger] items[i].0 != #[trigger] lowercase(items[j].0)
}

/// Restoring the pairs from `k` on in a text laid out as `ps`, where each item
/// `j` stands for the placeholder of the pair `j` and, where `lowered`, each
/// item `n + j` for its lowercased form, writes each original where its
/// placeholder stood, as long as the outcome `t` holds no `__` and spells no
/// placeholder's name, lowercased or not, and the placeholders met are told
/// apart.
proof fn lemma_restore_layout(
    t: Seq<char>,
    items: Seq<(Seq<char>, Seq<char>)>,
    ps: Seq<Piece>,
    k: nat,
    lowered: bool,
)
    requires
        k <= items.len(),
        pending(ps, k, items.len(), lowered),
        render(ps, origs(items) + origs(items)) == t,
        no_doubled(t),
        all_bracketed(marks(items) + lows(items)),
        forall|i: int, j: int|
            0 <= i < items.len() && 0 <= j < items.len() && i != j ==> #[trigger] items[i].0 != #[trigger] items[j].0,
        lowered ==> lowered_apart(items),
        forall|j: int| 0 <= j < items.len() ==> #[trigger] restores_cleanly(t, items, j),
    ensures
        restored(render(ps, marks(items) + lows(items)), items.skip(k as int)) == t,
    decreases items.len() - k,
{
    let n = items.len();
    let ts = marks(items) + lows(items);
    let os = origs(items) + origs(items);
    let x = render(ps, ts);
    if k == n {
        assert forall|i: int| 0 <= i < ps.len() implies #[trigger] ps[i] is Chr by {
            assert(ps[i] matches Piece::Itm(j) ==> (k <= j < n || (lowered && n + k <= j < 2 * n)));
        }
        lemma_all_chr(ps, ts, os);
        assert(items.skip(k as int) =~= Seq::<(Seq<char>, Seq<char>)>::empty());
    } else {
        let ph = items[k as int].0;
        let orig = items[k as int].1;
        let low = lowercase(ph);
        let rest = items.skip(k as int);
        assert(rest[0] == items[k as int]);
        assert(rest.drop_first() =~= items.skip((k + 1) as int));
        assert(ts[k as int] == ph && ts[(n + k) as int] == low);
        assert(os[k as int] == orig && os[(n + k) as int] == orig);
        assert(restores_cleanly(t, items, k as int));
        let allowed0 = |j: nat| k <= j < n || (lowered && n + k <= j < 2 * n);
        assert forall|i: int| 0 <= i < ps.len() implies (#[trigger] ps[i] matches Piece::Itm(j) ==> j < ts.len()) by {
            assert(ps[i] matches Piece::Itm(j) ==> allowed0(j));
        }
        assert forall|i: int| 0 <= i < ps.len() implies (#[trigger] ps[i] matches Piece::Itm(j) ==> (ts[j as int]
            == ph <==> j == k)) by {
            if let Piece::Itm(j) = ps[i] {
                assert(allowed0(j));
                if j < n {
                    assert(ts[j as int] == items[j as int].0);
                } else {
                    assert(ts[j as int] == lowercase(items[j - n].0));
                    assert(items[k as int].0 != lowercase(items[j - n].0));
                }
            }
        }
        lemma_expand(ps, ts, os, ph, k, orig);
        let p1 = expand(ps, k, orig);
        lemma_expand_pred(ps, k, orig, allowed0);
        lemma_expand_origs(ps, os, k);
        let allowed1 = |j: nat| allowed0(j) && j != k;
        assert forall|i: int| 0 <= i < p1.len() implies (#[trigger] p1[i] matches Piece::Itm(j) ==> allowed1(j)) by {
            assert(p1[i] matches Piece::Itm(j) ==> allowed0(j) && j != k);
        }
        assert forall|i: int| 0 <= i < p1.len() implies (#[trigger] p1[i] matches Piece::Itm(j) ==> j < ts.len()) by {
            assert(p1[i] matches Piece::Itm(j) ==> allowed1(j));
        }
        assert forall|i: int| 0 <= i < p1.len() implies (#[trigger] p1[i] matches Piece::Itm(j) ==> (ts[j as int]
            == low <==> j == n + k)) by {
            if let Piece::Itm(j) = p1[i] {
                assert(allowed1(j));
                if j < n {
                    assert(ts[j as int] == items[j as int].0);
                    assert(items[j as int].0 != low);
                } else {
                    assert(ts[j as int] == lowercase(items[j - n].0));
                    if j != n + k {
                        assert(lowercase(items[j - n].0) != lowercase(items[k as int].0));
                    }
                }
            }
        }
        lemma_expand(p1, ts, os, low, (n + k) as nat, orig);
        let p2 = expand(p1, (n + k) as nat, orig);
        lemma_expand_pred(p1, (n + k) as nat, orig, allowed1);
        lemma_expand_origs(p1, os, (n + k) as nat);
        assert forall|i: int| 0 <= i < p2.len() implies (#[trigger] p2[i] matches Piece::Itm(j) ==> (k + 1 <= j < n
            || (lowered && n + k + 1 <= j < 2 * n))) by {
            assert(p2[i] matches Piece::Itm(j) ==> allowed1(j) && j != n + k);
        }
        lemma_restore_layout(t, items, p2, k + 1, lowered);
    }
}

/// The placeholders that preservation hands out are bracketed and differ
/// from each other.
proof fn lemma_preserved_markers(s: Seq<char>)
    ensures
        all_bracketed(marks(preserved(s).1)),
        forall|i: int, j: int|
            0 <= i < preserved(s).1.len() && 0 <= j < preserved(s).1.len() && i != j ==> #[trigger] preserved(
                s,
            ).1[i].0 != #[trigger] preserved(s).1[j].0,
{
    let g = preserved(s).1;
    let ms = marks(g);
    assert forall|k: int| 0 <= k < ms.len() implies bracketed(#[trigger] ms[k]) by {
        let r = lemma_preserved_marker(s, k);
        lemma_marker_bracketed(r.0, r.1);
    }
    assert forall|i: int, j: int|
        0 <= i < g.len() && 0 <= j < g.len() && i != j implies #[trigger] g[i].0 != #[trigger] g[j].0 by {
        lemma_preserved_marker(s, j);
    }
}

/// Compression writes every set-aside text back verbatim wherever its
/// placeholder, or the placeholder's lowercased form, stands in the rewritten
/// prose: when the rewritten prose is laid out as `q`, characters and
/// placeholders (item `j` for the placeholder of the pair `j`, item `n + j`
/// for its lowercased form), the compressed prompt is `q` with each item
/// written as its original, as long as that outcome holds no `__` and spells
/// no placeholder's name, lowercased or not, and all the placeholders and
/// their lowercased forms differ.
pub proof fn law_condensed_restores(s: Seq<char>, q: Seq<Piece>)
    requires
        with_synonyms(phrase_optimized(preserved(s).0)) == render(q, marks(preserved(s).1) + lows(preserved(s).1)),
        forall|i: int|
            0 <= i < q.len() ==> (#[trigger] q[i] matches Piece::Itm(j) ==> j < 2 * preserved(s).1.len()),
        no_doubled(render(q, origs(preserved(s).1) + origs(preserved(s).1))),
        lowered_apart(preserved(s).1),
        forall|j: int|
            0 <= j < preserved(s).1.len() ==> #[trigger] restores_cleanly(
                render(q, origs(preserved(s).1) + origs(preserved(s).1)),
                preserved(s).1,
                j,
            ),
    ensures
        condensed(s) == render(q, origs(preserved(s).1) + origs(preserved(s).1)),
{
    let g = preserved(s).1;
    let n = g.len();
    let t = render(q, origs(g) + origs(g));
    let ms = marks(g);
    let ts = marks(g) + lows(g);
    lemma_preserved_markers(s);
    assert forall|k: int| 0 <= k < ts.len() implies bracketed(#[trigger] ts[k]) by {
        if k < n {
            assert(ts[k] == ms[k]);
        } else {
            assert(restores_cleanly(t, g, k - n));
            assert(ts[k] == lowercase(g[k - n].0));
        }
    }
    assert forall|i: int| 0 <= i < q.len() implies (#[trigger] q[i] matches Piece::Itm(j) ==> (0 <= j < n || (true
        && n <= j < 2 * n))) by {
        assert(q[i] matches Piece::Itm(j) ==> j < 2 * n);
    }
    lemma_restore_layout(t, g, q, 0, true);
    assert(g.skip(0) =~= g);
}

/// Whether the pair at `k` of what the prompt `s` sets aside comes back
/// cleanly: its original can be set aside without touching a placeholder,
/// and its placeholder is put back cleanly.
pub open spec fn round_trips(s: Seq<char>, items: Seq<(Seq<char>, Seq<char>)>, k: int) -> bool {
    sets_aside_cleanly(items[k].1, items) && restores_cleanly(s, items, k)
}

/// Restoring what preservation set aside gives the prompt back, for any
/// number of code blocks, inline code spans and URLs, as long as the prompt
/// holds no `__` and does not spell a placeholder's name, lowercased or not,
/// and each set-aside text holds no `__`, neither begins nor ends with `_`
/// and occurs in no placeholder.
pub proof fn law_preserve_restore(s: Seq<char>)
    requires
        no_doubled(s),
        forall|k: int| 0 <= k < preserved(s).1.len() ==> #[trigger] round_trips(s, preserved(s).1, k),
    ensures
        restored(preserved(s).0, preserved(s).1) == s,
{
    let g = preserved(s).1;
    let ms = marks(g);
    lemma_preserved_markers(s);
    assert forall|k: int| 0 <= k < g.len() implies sets_aside_cleanly(#[trigger] g[k].1, g) by {
        assert(round_trips(s, g, k));
    }
    assert forall|k: int| 0 <= k < g.len() implies #[trigger] restores_cleanly(s, g, k) by {
        assert(round_trips(s, g, k));
    }
    lemma_stash_layout(s, g, g.len());
    lemma_preserved_stashes(s);
    let l = stash_layout(s, g, g.len());
    let n = g.len();
    assert forall|i: int| 0 <= i < l.len() implies (#[trigger] l[i] matches Piece::Itm(j) ==> (0 <= j < n || (false
        && n <= j < 2 * n))) by {
        assert(l[i] matches Piece::Itm(j) ==> j < n);
    }
    let ts = marks(g) + lows(g);
    let os = origs(g) + origs(g);
    assert forall|k: int| 0 <= k < ts.len() implies bracketed(#[trigger] ts[k]) by {
        if k < n {
            assert(ts[k] == ms[k]);
        } else {
            assert(restores_cleanly(s, g, k - n));
            assert(ts[k] == lowercase(g[k - n].0));
        }
    }
    assert forall|i: int| 0 <= i < l.len() implies (#[trigger] l[i] matches Piece::Itm(j) ==> ts[j as int]
        == ms[j as int] && os[j as int] == origs(g)[j as int]) by {
        assert(l[i] matches Piece::Itm(j) ==> j < n);
    }
    lemma_render_agree(l, ts, ms);
    lemma_render_agree(l, os, origs(g));
    lemma_restore_layout(s, g, l, 0, false);
    assert(g.skip(0) =~= g);
}

/// The whole semantic compression of a prompt.
pub open spec fn condensed(s: Seq<char>) -> Seq<char> {
    let (text, items) = preserved(s);
    restored(with_synonyms(phrase_optimized(text)), items)
}

/// The words of `ws` whose UTF-8 encoding is longer than three bytes, in order.
pub open spec fn important_words(ws: Seq<Seq<char>>) -> Seq<Seq<char>>
    decreases ws.len(),
{
    if ws.len() == 0 {
        seq![]
    } else {
        let earlier = important_words(ws.drop_last());
        if utf8_len(ws.last()) > 3 {
            earlier.push(ws.last())
        } else {
            earlier
        }
    }
}

/// How many of the words `ws` (counted with repetition) occur in `kept`.
pub open spec fn preserved_count(ws: Seq<Seq<char>>, kept: Seq<Seq<char>>) -> nat
    decreases ws.len(),
{
    if ws.len() == 0 {
        0
    } else {
        preserved_count(ws.drop_last(), kept) + if kept.contains(ws.last()) {
            1nat
        } else {
            0nat
        }
    }
}

/// No more words can be preserved than there are: the share of important
/// words that a compression keeps is at most the whole; and when every word is
/// found again, all of them count as preserved.
pub proof fn law_preserved_at_most_all(ws: Seq<Seq<char>>, kept: Seq<Seq<char>>)
    ensures
        preserved_count(ws, kept) <= ws.len(),
        (forall|k: int| 0 <= k < ws.len() ==> kept.contains(#[trigger] ws[k])) ==> preserved_count(
            ws,
            kept,
        ) == ws.len(),
    decreases ws.len(),
{
    if ws.len() > 0 {
        law_preserved_at_most_all(ws.drop_last(), kept);
        if forall|k: int| 0 <= k < ws.len() ==> kept.contains(#[trigger] ws[k]) {
            assert forall|k: int| 0 <= k < ws.drop_last().len() implies kept.contains(
                #[trigger] ws.drop_last()[k],
            ) by {
                assert(ws.drop_last()[k] == ws[k]);
            }
            assert(kept.contains(ws[ws.len() - 1]));
        }
    }
}

/// A compression that keeps the text as it is preserves every important word.
pub proof fn law_unchanged_text_preserves_everything(s: Seq<char>)
    ensures
        preserved_count(important_words(words(s)), important_words(words(s))) == important_words(
            words(s),
        ).len(),
{
    let iw = important_words(words(s));
    assert forall|k: int| 0 <= k < iw.len() implies iw.contains(#[trigger] iw[k]) by {}
    law_preserved_at_most_all(iw, iw);
}

/// What the similarity score of a compression is computed from.
#[derive(Clone, Copy, Debug, PartialEq, Eq, Structural)]
pub enum SimilarityBasis {
    /// The compressed text is the original.
    Identical,
    /// The original has no words; whether the compressed text has any.
    NoWords { compressed_has_words: bool },
    /// The original has words, but none longer than three bytes.
    NoImportantWords,
    /// Of the `important` words of the original longer than three bytes,
    /// `preserved` occur among such words of the compressed text.
    Counted { preserved: usize, important: usize },
}

/// The words of `ws` longer than three bytes.
fn important_of(ws: &Vec<Vec<char>>) -> (r: Vec<Vec<char>>)
    ensures
        views(r@) == important_words(views(ws@)),
{
    let ghost all = views(ws@);
    let mut r: Vec<Vec<char>> = Vec::new();
    let mut i: usize = 0;
    while i < ws.len()
        invariant
            i <= ws.len(),
            all == views(ws@),
            views(r@) == important_words(all.take(i as int)),
        decreases ws.len() - i,
    {
        let ghost before = views(r@);
        assert(all.take(i + 1).drop_last() =~= all.take(i as int));
        assert(all.take(i + 1).last() == ws@[i as int]@);
        if crate::text::longer_than_three_bytes(ws[i].as_slice()) {
            let w = copy_chars(ws[i].as_slice());
            r.push(w);
            assert(views(r@) =~= before.push(all[i as int]));
        }
        i = i + 1;
    }
    assert(all.take(ws.len() as int) =~= all);
    r
}

/// Whether `w` is one of the words `ws`.
fn contains_word(ws: &Vec<Vec<char>>, w: &[char]) -> (b: bool)
    ensures
        b == views(ws@).contains(w@),
{
    let mut k: usize = 0;
    while k < ws.len()
        invariant
            k <= ws.len(),
            forall|j: int| 0 <= j < k ==> views(ws@)[j] != w@,
        decreases ws.len() - k,
    {
        if same_chars(ws[k].as_slice(), w) {
            assert(views(ws@)[k as int] == w@);
            return true;
        }
        k = k + 1;
    }
    false
}

/// The character sequences of a list of string pairs.
pub open spec fn item_views(v: Seq<(String, String)>) -> Seq<(Seq<char>, Seq<char>)> {
    v.map_values(|p: (String, String)| (p.0@, p.1@))
}

/// The string `prefix`, `k` in decimal, `suffix`.
fn make_marker(prefix: &str, k: usize, suffix: &str) -> (r: String)
    ensures
        r@ == marker(prefix@, k as nat, suffix@),
{
    let mut v = chars_of(prefix);
    push_decimal(&mut v, k as u64);
    let s = chars_of(suffix);
    append_chars(&mut v, s.as_slice());
    string_of(v.as_slice())
}

/// Replaces each text of `ms` in `text` by its marker and records the
/// (marker, text) pairs after those already in `items`.
fn stash(
    text: Vec<char>,
    ms: &Vec<String>,
    prefix: &str,
    suffix: &str,
    items: &mut Vec<(String, String)>,
) -> (r: Vec<char>)
    ensures
        r@ == stash_text(text@, string_views(ms@), prefix@, suffix@, ms@.len()),
        item_views(final(items)@) == item_views(old(items)@) + stash_items(
            string_views(ms@),
            prefix@,
            suffix@,
        ),
{
    let ghost msv = string_views(ms@);
    let ghost start = item_views(items@);
    let mut acc = text;
    let mut k: usize = 0;
    while k < ms.len()
        invariant
            k <= ms.len(),
            msv == string_views(ms@),
            acc@ == stash_text(text@, msv, prefix@, suffix@, k as nat),
            item_views(items@) == start + stash_items(msv, prefix@, suffix@).take(k as int),
        decreases ms.len() - k,
    {
        let ph = make_marker(prefix, k, suffix);
        let m = ms[k].clone();
        let ghost before = item_views(items@);
        let mchars = chars_of(m.as_str());
        let pchars = chars_of(ph.as_str());
        acc = replace_chars(acc.as_slice(), mchars.as_slice(), pchars.as_slice());
        items.push((ph, m));
        assert(item_views(items@) =~= before.push((marker(prefix@, k as nat, suffix@), msv[k as int])));
        assert(stash_items(msv, prefix@, suffix@).take(k + 1) =~= stash_items(msv, prefix@, suffix@).take(k as int).push(
            (marker(prefix@, k as nat, suffix@), msv[k as int]),
        ));
        k = k + 1;
    }
    assert(stash_items(msv, prefix@, suffix@).take(ms.len() as int) =~= stash_items(msv, prefix@, suffix@));
    acc
}

/// Semantic compressor that replaces words and phrases with shorter
/// alternatives while preserving meaning.
///
/// Besides the tables it holds the compiled patterns it searches with.
pub struct SemanticCompressor {
    /// Synonym replacements (longer -> shorter), longest word first
    synonyms: Vec<(&'static str, &'static str)>,
    /// Phrase optimizations, longest phrase first
    phrase_optimizations: Vec<(&'static str, &'static str)>,
    /// Regex for word boundaries
    word_boundary_regex: Pattern,
    /// Regex for placeholders of set-aside content
    placeholder_regex: Pattern,
    /// Regex for fenced code blocks
    code_block_regex: Pattern,
    /// Regex for inline code
    inline_code_regex: Pattern,
    /// Regex for URLs
    url_regex: Pattern,
}

impl SemanticCompressor {
    #[verifier::type_invariant]
    spec fn well_formed(self) -> bool {
        &&& pair_views(self.synonyms@) == synonym_table()
        &&& pair_views(self.phrase_optimizations@) == phrase_table()
        &&& self.word_boundary_regex@ == word_boundary_pattern()
        &&& self.placeholder_regex@ == placeholder_pattern()
        &&& self.code_block_regex@ == code_block_pattern()
        &&& self.inline_code_regex@ == inline_code_pattern()
        &&& self.url_regex@ == url_pattern()
    }

    /// Builds the compressor; `None` when the regex crate refuses one of its patterns.
    pub fn new() -> (r: Option<Self>)
        ensures
            r is Some <==> {
                &&& regex_accepts(word_boundary_pattern())
                &&& regex_accepts(placeholder_pattern())
                &&& regex_accepts(code_block_pattern())
                &&& regex_accepts(inline_code_pattern())
                &&& regex_accepts(url_pattern())
            },
    {
        let synonyms = synonym_pairs();
        let phrase_optimizations = phrase_pairs();
        let word_boundary_regex = match compile("\\b") {
            Some(p) => p,
            None => return None,
        };
        let placeholder_regex = match compile("__[A-Z_]+_\\d+__") {
            Some(p) => p,
            None => return None,
        };
        let code_block_regex = match compile("```[\\s\\S]*?```") {
            Some(p) => p,
            None => return None,
        };
        let inline_code_regex = match compile("`[^`]+`") {
            Some(p) => p,
            None => return None,
        };
        let url_regex = match compile("https?://[^\\s]+") {
            Some(p) => p,
            None => return None,
        };
        Some(
            SemanticCompressor {
                synonyms,
                phrase_optimizations,
                word_boundary_regex,
                placeholder_regex,
                code_block_regex,
                inline_code_regex,
                url_regex,
            },
        )
    }

    /// Apply synonym replacements to the text.
    pub fn apply_synonyms(&self, text: &str) -> (r: String)
        ensures
            r@ == with_synonyms(text@),
    {
        proof {
            use_type_invariant(self);
        }
        let ghost all = synonym_table();
        let mut result = to_lowercase(text);
        let mut i: usize = 0;
        assert(all.skip(0) =~= all);
        while i < self.synonyms.len()
            invariant
                i <= self.synonyms.len(),
                all == synonym_table(),
                pair_views(self.synonyms@) == all,
                with_synonyms(text@) == synonyms_replaced(result@, all.skip(i as int)),
            decreases self.synonyms.len() - i,
        {
            let (long_word, short_word) = self.synonyms[i];
            assert(all.skip(i as int)[0] == (long_word@, short_word@));
            assert(all.skip(i as int).drop_first() =~= all.skip(i + 1));
            let pattern = whole_word_regex(long_word);
            match compile(pattern.as_str()) {
                Some(regex) => {
                    result = replace_all(&regex, result.as_str(), short_word);
                },
                None => {},
            }
            i = i + 1;
        }
        result
    }

    /// Apply phrase optimizations, keeping placeholders of set-aside content intact.
    pub fn apply_phrase_optimizations(&self, text: &str) -> (r: String)
        ensures
            r@ == phrase_optimized(text@),
    {
        proof {
            use_type_invariant(self);
        }
        let placeholders = find_all(&self.placeholder_regex, text);
        let ghost phs = string_views(placeholders@);
        let mut temp_placeholders: Vec<(String, String)> = Vec::new();
        let hidden = stash(chars_of(text), &placeholders, "TEMP_PLACEHOLDER_", "", &mut temp_placeholders);
        let hidden_text = string_of(hidden.as_slice());
        let lower = to_lowercase(hidden_text.as_str());
        let lower_chars = chars_of(lower.as_str());
        let mut result = replace_pairs(lower_chars.as_slice(), &self.phrase_optimizations);
        let ghost shortened = result@;
        let ghost temps = item_views(temp_placeholders@);
        assert(temps =~= stash_items(phs, "TEMP_PLACEHOLDER_"@, ""@));
        let mut k: usize = 0;
        while k < temp_placeholders.len()
            invariant
                k <= temp_placeholders.len(),
                temps == item_views(temp_placeholders@),
                temps == stash_items(phs, "TEMP_PLACEHOLDER_"@, ""@),
                result@ == unstash_lowered(shortened, phs, "TEMP_PLACEHOLDER_"@, ""@, k as nat),
            decreases temp_placeholders.len() - k,
        {
            let temp_lower = to_lowercase(temp_placeholders[k].0.as_str());
            let from = chars_of(temp_lower.as_str());
            let to = chars_of(temp_placeholders[k].1.as_str());
            assert(temps[k as int] == (temp_placeholders@[k as int].0@, temp_placeholders@[k as int].1@));
            assert(temps.len() == temp_placeholders@.len());
            assert(stash_items(phs, "TEMP_PLACEHOLDER_"@, ""@).len() == phs.len());
            assert(k < phs.len());
            assert(stash_items(phs, "TEMP_PLACEHOLDER_"@, ""@)[k as int] == (marker("TEMP_PLACEHOLDER_"@, k as nat, ""@), phs[k as int]));
            assert(temps[k as int] == (marker("TEMP_PLACEHOLDER_"@, k as nat, ""@), phs[k as int]));
            assert(unstash_lowered(shortened, phs, "TEMP_PLACEHOLDER_"@, ""@, (k + 1) as nat) == replace_every(
                unstash_lowered(shortened, phs, "TEMP_PLACEHOLDER_"@, ""@, k as nat),
                lowercase(marker("TEMP_PLACEHOLDER_"@, k as nat, ""@)),
                phs[k as int],
            ));
            result = replace_chars(result.as_slice(), from.as_slice(), to.as_slice());
            k = k + 1;
        }
        let two = chars_of("  ");
        let one = chars_of(" ");
        let single = replace_chars(result.as_slice(), two.as_slice(), one.as_slice());
        let single_text = string_of(single.as_slice());
        trim(single_text.as_str())
    }

    /// Replace code blocks, inline code and URLs by numbered placeholders;
    /// returns the text and the (placeholder, original) pairs.
    pub fn preserve_technical_content(&self, text: &str) -> (r: (String, Vec<(String, String)>))
        ensures
            r.0@ == preserved(text@).0,
            item_views(r.1@) == preserved(text@).1,
    {
        proof {
            use_type_invariant(self);
        }
        let mut preserved_items: Vec<(String, String)> = Vec::new();
        let code_matches = find_all(&self.code_block_regex, text);
        let s1 = stash(chars_of(text), &code_matches, "__CODE_BLOCK_", "__", &mut preserved_items);
        let t1 = string_of(s1.as_slice());
        let inline_matches = find_all(&self.inline_code_regex, t1.as_str());
        let s2 = stash(s1, &inline_matches, "__INLINE_CODE_", "__", &mut preserved_items);
        let t2 = string_of(s2.as_slice());
        let url_matches = find_all(&self.url_regex, t2.as_str());
        let s3 = stash(s2, &url_matches, "__URL_", "__", &mut preserved_items);
        assert(item_views(preserved_items@) =~= preserved(text@).1);
        (string_of(s3.as_slice()), preserved_items)
    }

    /// Restore preserved technical content, for each placeholder in its given
    /// and its lowercased form.
    pub fn restore_technical_content(&self, text: &str, preserved_items: Vec<(String, String)>) -> (r: String)
        ensures
            r@ == restored(text@, item_views(preserved_items@)),
    {
        let ghost all = item_views(preserved_items@);
        let mut result = chars_of(text);
        let mut k: usize = 0;
        assert(all.skip(0) =~= all);
        while k < preserved_items.len()
            invariant
                k <= preserved_items.len(),
                all == item_views(preserved_items@),
                restored(text@, all) == restored(result@, all.skip(k as int)),
            decreases preserved_items.len() - k,
        {
            let placeholder = chars_of(preserved_items[k].0.as_str());
            let original = chars_of(preserved_items[k].1.as_str());
            let lower = to_lowercase(preserved_items[k].0.as_str());
            let lower_chars = chars_of(lower.as_str());
            assert(all.skip(k as int)[0] == all[k as int]);
            assert(all.skip(k as int).drop_first() =~= all.skip(k + 1));
            let once = replace_chars(result.as_slice(), placeholder.as_slice(), original.as_slice());
            result = replace_chars(once.as_slice(), lower_chars.as_slice(), original.as_slice());
            k = k + 1;
        }
        string_of(result.as_slice())
    }

    /// What the similarity of `compressed` to `original` is scored from: whether
    /// they are the same, whether the original has words and words longer than
    /// three bytes, and how many of those the compressed text keeps.
    pub fn similarity_basis(&self, original: &str, compressed: &str) -> (r: SimilarityBasis)
        ensures
            match r {
                SimilarityBasis::Identical => original@ == compressed@,
                SimilarityBasis::NoWords { compressed_has_words } => {
                    &&& original@ != compressed@
                    &&& words(original@).len() == 0
                    &&& compressed_has_words == (words(compressed@).len() > 0)
                },
                SimilarityBasis::NoImportantWords => {
                    &&& original@ != compressed@
                    &&& words(original@).len() > 0
                    &&& important_words(words(original@)).len() == 0
                },
                SimilarityBasis::Counted { preserved, important } => {
                    &&& original@ != compressed@
                    &&& words(original@).len() > 0
                    &&& important == important_words(words(original@)).len()
                    &&& important > 0
                    &&& preserved <= important
                    &&& preserved == preserved_count(
                        important_words(words(original@)),
                        important_words(words(compressed@)),
                    )
                },
            },
    {
        let o = chars_of(original);
        let c = chars_of(compressed);
        if same_chars(o.as_slice(), c.as_slice()) {
            return SimilarityBasis::Identical;
        }
        let original_words = split_words(o.as_slice());
        let compressed_words = split_words(c.as_slice());
        if original_words.len() == 0 {
            return SimilarityBasis::NoWords { compressed_has_words: compressed_words.len() > 0 };
        }
        let original_important = important_of(&original_words);
        let compressed_important = important_of(&compressed_words);
        if original_important.len() == 0 {
            return SimilarityBasis::NoImportantWords;
        }
        let ghost oi = views(original_important@);
        let ghost ci = views(compressed_important@);
        let mut preserved: usize = 0;
        let mut i: usize = 0;
        while i < original_important.len()
            invariant
                i <= original_important.len(),
                oi == views(original_important@),
                ci == views(compressed_important@),
                preserved == preserved_count(oi.take(i as int), ci),
                preserved <= i,
            decreases original_important.len() - i,
        {
            assert(oi.take(i + 1).drop_last() =~= oi.take(i as int));
            assert(oi.take(i + 1).last() == original_important@[i as int]@);
            if contains_word(&compressed_important, original_important[i].as_slice()) {
                preserved = preserved + 1;
            }
            i = i + 1;
        }
        assert(oi.take(original_important.len() as int) =~= oi);
        SimilarityBasis::Counted { preserved, important: original_important.len() }
    }

    /// The semantically compressed prompt: technical content set aside, phrases
    /// optimized, synonyms applied, technical content restored.
    pub fn compress_text(&self, prompt: &str) -> (r: String)
        ensures
            r@ == condensed(prompt@),
    {
        let (text_to_compress, preserved_items) = self.preserve_technical_content(prompt);
        let phrased = self.apply_phrase_optimizations(text_to_compress.as_str());
        let compressed = self.apply_synonyms(phrased.as_str());
        self.restore_technical_content(compressed.as_str(), preserved_items)
    }
}

} // verus!
