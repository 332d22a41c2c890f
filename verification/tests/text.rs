use osbuild_cfg::text::{
    char_is_whitespace, chars_of, find_in_range, line_ranges, range_contains, range_equals,
    str_eq, trim_range,
};

fn chars(s: &str) -> Vec<char> {
    s.chars().collect()
}

#[test]
fn chars_of_gives_the_characters() {
    assert_eq!(chars_of("aé\u{1F600}"), vec!['a', 'é', '\u{1F600}']);
    assert_eq!(chars_of(""), Vec::<char>::new());
}

#[test]
fn whitespace_agrees_with_the_unicode_property() {
    for code in 0..=0x11_0000u32 {
        if let Some(c) = char::from_u32(code) {
            assert_eq!(char_is_whitespace(c), c.is_whitespace(), "U+{:04X}", code);
        }
    }
}

#[test]
fn trim_range_agrees_with_trim() {
    for s in ["", " ", "a", "  a b \t", "\n\nx", "x\r\n", " \u{2003} ", "é "] {
        let v = chars(s);
        let (a, b) = trim_range(&v, 0, v.len());
        assert_eq!(v[a..b].iter().collect::<String>(), s.trim(), "{:?}", s);
    }
    let v = chars("ab  cd  ef");
    assert_eq!(trim_range(&v, 2, 8), (4, 6));
    assert_eq!(trim_range(&v, 2, 4), (4, 4));
}

#[test]
fn find_in_range_finds_the_first() {
    let v = chars("a=b=c");
    assert_eq!(find_in_range(&v, 0, 5, '='), Some(1));
    assert_eq!(find_in_range(&v, 2, 5, '='), Some(3));
    assert_eq!(find_in_range(&v, 4, 5, '='), None);
    assert_eq!(find_in_range(&v, 0, 1, '='), None);
    assert_eq!(find_in_range(&v, 3, 3, '='), None);
}

#[test]
fn range_contains_agrees_with_contains() {
    let needles = ["", "a", "ab", "ba", "aba", "abab", "b", "c", "ababa", "ababab"];
    for hay in ["", "a", "ababa", "bbab", "cab"] {
        for needle in needles {
            let h = chars(hay);
            assert_eq!(
                range_contains(&h, 0, h.len(), &chars(needle)),
                hay.contains(needle),
                "{:?} in {:?}",
                needle,
                hay
            );
        }
    }
    let h = chars("xfedorax");
    assert!(range_contains(&h, 1, 7, &chars("fedora")));
    assert!(!range_contains(&h, 2, 7, &chars("fedora")));
    assert!(!range_contains(&h, 1, 6, &chars("fedora")));
}

#[test]
fn range_equals_compares_exactly() {
    let h = chars("ID_LIKE");
    assert!(range_equals(&h, 0, 2, &chars("ID")));
    assert!(!range_equals(&h, 0, 3, &chars("ID")));
    assert!(!range_equals(&h, 1, 3, &chars("ID")));
    assert!(range_equals(&h, 3, 3, &chars("")));
    assert!(range_equals(&h, 0, 7, &chars("ID_LIKE")));
}

#[test]
fn line_ranges_split_at_every_newline() {
    assert_eq!(line_ranges(&chars("")), vec![(0, 0)]);
    assert_eq!(line_ranges(&chars("ab")), vec![(0, 2)]);
    assert_eq!(line_ranges(&chars("ab\n")), vec![(0, 2), (3, 3)]);
    assert_eq!(line_ranges(&chars("\na\n\nbc")), vec![(0, 0), (1, 2), (3, 3), (4, 6)]);
}

#[test]
fn str_eq_compares_characters() {
    assert!(str_eq("", ""));
    assert!(str_eq("root", "root"));
    assert!(!str_eq("root", "roo"));
    assert!(!str_eq("root", "rooT"));
    assert!(!str_eq("é", "e"));
    assert!(str_eq("é\u{1F600}", "é\u{1F600}"));
}
