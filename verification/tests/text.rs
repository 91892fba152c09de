use encage_build::text::{comes_before, expand_tabs, same_text};

#[test]
fn texts_are_compared_by_their_characters() {
    assert!(same_text("copy", "copy"));
    assert!(same_text("", ""));
    assert!(!same_text("copy", "copy "));
    assert!(!same_text("copy", "cope"));
    assert!(!same_text("é", "e"));
}

#[test]
fn texts_are_ordered_as_strings_are() {
    let samples = ["", "a", "b", "ab", "abc", "abd", "B", "é", "e", "z", "zz", "\u{10000}", "\u{ffff}", "a\u{0}"];
    for a in samples {
        for b in samples {
            assert_eq!(comes_before(a, b), a < b, "{:?} {:?}", a, b);
        }
    }
}

#[test]
fn tabs_become_four_spaces() {
    assert_eq!(expand_tabs(""), "");
    assert_eq!(expand_tabs("a = 1"), "a = 1");
    assert_eq!(expand_tabs("\ta\t"), "    a    ");
    assert_eq!(expand_tabs("\t\t"), "        ");
    assert_eq!(expand_tabs("é\tü\n"), "é    ü\n");
    assert_eq!(expand_tabs("a\tb"), "a\tb".replace("\t", "    "));
}
