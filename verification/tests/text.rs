use prompt_condensor::text::{chars_of, is_blank, replace, split_words, trim};

#[test]
fn replace_scans_left_to_right_without_overlap() {
    assert_eq!(replace("aaaa", "aa", "b"), "bb");
    assert_eq!(replace("aaa", "aa", "b"), "ba");
    assert_eq!(replace("abc", "", "-"), "-a-b-c-");
    assert_eq!(replace("abc", "x", "y"), "abc");
    assert_eq!(replace("a  b", "  ", " "), "a b");
    assert_eq!(replace("a    b", "  ", " "), "a  b");
}

#[test]
fn trim_and_blank() {
    assert_eq!(trim("  x y \n"), "x y");
    assert_eq!(trim("\u{a0}x\u{2003}"), "x");
    assert!(is_blank(" \t\n\u{3000}"));
    assert!(!is_blank(" . "));
}

#[test]
fn words_split_on_white_space() {
    let v = chars_of("  one two\tthree\n ");
    let words: Vec<String> = split_words(&v).iter().map(|w| w.iter().collect()).collect();
    assert_eq!(words, vec!["one", "two", "three"]);
    assert!(split_words(&chars_of("   ")).is_empty());
}
