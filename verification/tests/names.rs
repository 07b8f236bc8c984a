use bindle_search::names::precedes;

#[test]
fn a_name_does_not_precede_itself() {
    assert!(!precedes("my/bindle", "my/bindle"));
    assert!(!precedes("", ""));
}

#[test]
fn a_proper_prefix_precedes() {
    assert!(precedes("my/bindle", "my/bindle2"));
    assert!(!precedes("my/bindle2", "my/bindle"));
    assert!(precedes("", "a"));
    assert!(!precedes("a", ""));
}

#[test]
fn the_first_differing_byte_decides() {
    assert!(precedes("abc", "abd"));
    assert!(!precedes("abd", "abc"));
    assert!(precedes("abc", "b"));
    assert!(precedes("Zebra", "apple"));
    assert!(precedes("a/b", "a0"));
}

#[test]
fn names_are_ordered_as_strings_are() {
    let names = ["", "a", "A", "my/bindle", "my/bindle2", "my-bindle", "é", "z", "日本", "~", "a\u{10348}"];
    for a in names.iter() {
        for b in names.iter() {
            assert_eq!(precedes(a, b), a < b, "{:?} against {:?}", a, b);
        }
    }
}
