use prompt_condensor::metrics::count_tokens;
use prompt_condensor::algorithms::text_preprocessing::TextPreprocessor;
use prompt_condensor::algorithms::semantic_compression::{SemanticCompressor, SimilarityBasis};
use prompt_condensor::text::{replace, trim};

#[test]
fn longer_texts_never_count_fewer_tokens() {
    let mut previous = 0;
    for len in (0..200).chain([(1 << 24) - 2, (1 << 24) - 1, 1 << 24, (1 << 24) + 1, (1 << 24) + 2, (1 << 24) + 3]) {
        let tokens = count_tokens(&"x".repeat(len));
        assert!(tokens >= previous, "length {}", len);
        previous = tokens;
    }
}

#[test]
fn trimming_twice_is_trimming_once() {
    for s in ["  a b  ", "\u{2028}x\u{85}", "", "   ", "no-space"] {
        let once = trim(s);
        assert_eq!(trim(&once), once);
        assert!(!once.starts_with(char::is_whitespace));
        assert!(!once.ends_with(char::is_whitespace));
    }
}

#[test]
fn normalized_text_has_no_outer_white_space() {
    let pre = TextPreprocessor::new().unwrap();
    for s in ["\n\t lead and trail \u{3000}", "a", "   "] {
        let n = pre.normalize_whitespace(s);
        assert!(!n.starts_with(char::is_whitespace));
        assert!(!n.ends_with(char::is_whitespace));
        assert_eq!(trim(&n), n);
    }
}

#[test]
fn removing_words_keeps_the_first_and_only_drops() {
    let pre = TextPreprocessor::new().unwrap();
    let text = "the of to a an in";
    let out = pre.remove_unnecessary_words(text);
    assert_eq!(out, "the");
    let text = "With the help of a friend. The end in sight";
    let out = pre.remove_unnecessary_words(text);
    assert_eq!(out, "With help friend. The end sight");
    let words: Vec<&str> = text.split_whitespace().collect();
    let mut pos = 0;
    for w in out.split_whitespace() {
        while words[pos] != w {
            pos += 1;
        }
        pos += 1;
    }
}

#[test]
fn unchanged_text_preserves_every_important_word() {
    let sem = SemanticCompressor::new().unwrap();
    match sem.similarity_basis("keep these words", "keep  these   words") {
        SimilarityBasis::Counted { preserved, important } => assert_eq!(preserved, important),
        other => panic!("unexpected {:?}", other),
    }
    match sem.similarity_basis("alpha beta gamma delta", "alpha") {
        SimilarityBasis::Counted { preserved, important } => {
            assert_eq!((preserved, important), (1, 4));
            assert!(preserved <= important);
        }
        other => panic!("unexpected {:?}", other),
    }
}

#[test]
fn replacing_back_restores_the_text() {
    let text = "let x = y; let z = y;";
    let hidden = replace(text, "y", "\u{1}Y\u{1}");
    assert_eq!(hidden, "let x = \u{1}Y\u{1}; let z = \u{1}Y\u{1};");
    assert_eq!(replace(&hidden, "\u{1}Y\u{1}", "y"), text);
}

#[test]
fn set_aside_items_come_back() {
    let sem = SemanticCompressor::new().unwrap();
    for text in [
        "run ```sh\nls -la\n``` now",
        "call `main()` first",
        "see https://example.com/page?q=1 for more",
        "nothing technical here",
        "Here is some code: ```python\nprint('hello')\n``` and `inline_code`.",
        "use `snake_case` in ```x = 1``` and `y`, see https://a.b/c and https://a.b/c again",
    ] {
        let (hidden, items) = sem.preserve_technical_content(text);
        assert_eq!(sem.restore_technical_content(&hidden, items), text);
    }
}

#[test]
fn compression_writes_set_aside_texts_back_verbatim() {
    let sem = SemanticCompressor::new().unwrap();
    let text = "Could you please check `my_var` and ```rust\nfn main() {}\n``` at https://example.com/Docs";
    let out = sem.compress_text(text);
    assert!(out.contains("`my_var`"));
    assert!(out.contains("```rust\nfn main() {}\n```"));
    assert!(out.contains("https://example.com/Docs"));
}

#[test]
fn a_prompt_spelling_a_placeholder_name_does_not_come_back() {
    // Outside the round-trip law: the prompt spells `CODE_BLOCK_0` between two
    // code blocks, so the restored text differs from it.
    let sem = SemanticCompressor::new().unwrap();
    let text = "```a``` ```b```CODE_BLOCK_0```c```";
    let (hidden, items) = sem.preserve_technical_content(text);
    assert_eq!(hidden, "__CODE_BLOCK_0__ __CODE_BLOCK_1__CODE_BLOCK_0__CODE_BLOCK_2__");
    assert_eq!(
        sem.restore_technical_content(&hidden, items),
        "```a``` __CODE_BLOCK_1```a```CODE_BLOCK_2__"
    );
}
