use koharu::text::{
    control_char, decimal, drop_leading_space, drop_trailing, eq_ignore_case, equal_texts,
    find_last, padded_decimal, slice_text, to_chars, white_space,
};

#[test]
fn agrees_with_unicode_on_white_space_and_control_characters() {
    for c in '\0'..=char::MAX {
        assert_eq!(white_space(c), c.is_whitespace(), "{:x}", c as u32);
        assert_eq!(control_char(c), c.is_control(), "{:x}", c as u32);
    }
}

#[test]
fn trims_like_the_standard_library() {
    for text in ["", " ", "  a b\t", "\u{3000}x\u{a0}", "...", " a. . ", "a.b"] {
        let mut chars = drop_leading_space(&to_chars(text));
        assert_eq!(chars.iter().collect::<String>(), text.trim_start());
        drop_trailing(&mut chars, false);
        assert_eq!(chars.iter().collect::<String>(), text.trim());
        drop_trailing(&mut chars, true);
        let expected = text
            .trim()
            .trim_end_matches(|c: char| c == '.' || c.is_whitespace());
        assert_eq!(chars.iter().collect::<String>(), expected);
    }
}

#[test]
fn writes_numbers_in_decimal() {
    for n in [0usize, 1, 9, 10, 99, 100, 999, 1000, 9999, 10000, 123456, usize::MAX] {
        assert_eq!(decimal(n), n.to_string());
        assert_eq!(padded_decimal(n, 4), format!("{n:04}"));
        assert_eq!(padded_decimal(n, 0), n.to_string());
    }
    assert_eq!(padded_decimal(7, 4), "0007");
}

#[test]
fn compares_texts_with_and_without_case() {
    assert!(eq_ignore_case(&to_chars("ComicInfo.xml"), &to_chars("COMICINFO.XML")));
    assert!(!eq_ignore_case(&to_chars("Ä"), &to_chars("ä")));
    assert!(!eq_ignore_case(&to_chars("jpg"), &to_chars("jpeg")));
    assert!(!eq_ignore_case(&to_chars("[a"), &to_chars("{a")));
    assert!(equal_texts("第1章", "第1章"));
    assert!(!equal_texts("a", "A"));
    assert!(!equal_texts("a", "ab"));
}

#[test]
fn finds_the_last_occurrence() {
    let chars = to_chars("a.b.c");
    assert_eq!(find_last(&chars, '.'), Some(3));
    assert_eq!(find_last(&chars, '/'), None);
    assert_eq!(slice_text(&chars, 0, 3), "a.b");
}
