use cosmic_pulsar::text::comes_before;

#[test]
fn the_empty_text_comes_before_every_other() {
    assert!(comes_before("", "a"));
    assert!(!comes_before("a", ""));
    assert!(!comes_before("", ""));
}

#[test]
fn no_text_comes_before_itself() {
    for text in ["a", "abc", "Kind of Blue", "Ärger", "日本"] {
        assert!(!comes_before(text, text));
    }
}

#[test]
fn the_first_difference_decides() {
    assert!(comes_before("abc", "abd"));
    assert!(!comes_before("abd", "abc"));
    assert!(comes_before("abz", "b"));
    assert!(!comes_before("b", "abz"));
}

#[test]
fn a_text_comes_before_its_extensions() {
    assert!(comes_before("ab", "abc"));
    assert!(!comes_before("abc", "ab"));
}

#[test]
fn capitals_come_before_small_letters() {
    assert!(comes_before("Zebra", "apple"));
    assert!(!comes_before("apple", "Zebra"));
}

#[test]
fn texts_beyond_ascii_come_after_ascii() {
    assert!(comes_before("z", "Ärger"));
    assert!(comes_before("Ärger", "日本"));
    assert!(!comes_before("日本", "Ärger"));
}

#[test]
fn the_order_is_that_of_strings() {
    let texts = [
        "", "a", "A", "aa", "ab", "b", "B", "Blue", "Blue Train", "blue", "Ä", "é", "e", "z",
        "zz", "日本", "日", "\u{10FFFF}", "\u{7f}", "\u{80}", "\u{7ff}", "\u{800}", "\u{ffff}",
        "\u{10000}", " ", "0", "10", "9",
    ];
    for a in texts {
        for b in texts {
            assert_eq!(comes_before(a, b), a < b);
        }
    }
}
