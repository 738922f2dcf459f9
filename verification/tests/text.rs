use commit_lint::chars::{fold, is_scope_char, is_type_char, is_white_space};
use commit_lint::text::{chars_of, split_chars, string_of, trim, trim_chars};

#[test]
fn ascii_classes_are_the_usual_ones() {
    for code in 0u32..128 {
        let c = char::from_u32(code).unwrap();
        assert_eq!(is_type_char(c), c.is_ascii_alphanumeric() || c == '_');
        assert_eq!(is_scope_char(c), c.is_ascii_alphanumeric() || "_,$./-".contains(c));
        assert_eq!(is_white_space(c), c == ' ' || ('\t'..='\r').contains(&c));
    }
}

#[test]
fn classes_follow_the_standard_library_everywhere() {
    for code in 0u32..=0x10ffff {
        if let Some(c) = char::from_u32(code) {
            assert_eq!(is_type_char(c), c.is_alphanumeric() || c == '_');
            assert_eq!(is_scope_char(c), c.is_alphanumeric() || "_,$./-".contains(c));
            assert_eq!(is_white_space(c), c.is_whitespace());
        }
    }
}

#[test]
fn no_character_of_a_type_or_a_scope_is_white_space() {
    for code in 0u32..=0x10ffff {
        if let Some(c) = char::from_u32(code) {
            assert!(!(is_white_space(c) && (is_type_char(c) || is_scope_char(c))));
        }
    }
}

#[test]
fn folding_lowers_ascii_capitals_only() {
    for code in 0u32..=0x10ffff {
        if let Some(c) = char::from_u32(code) {
            assert_eq!(fold(c), c.to_ascii_lowercase() as u32);
        }
    }
    assert_eq!(fold('A'), 'a' as u32);
    assert_eq!(fold('Z'), 'z' as u32);
    assert_eq!(fold('a'), 'a' as u32);
    assert_eq!(fold('Ä'), 'Ä' as u32);
}

#[test]
fn characters_and_strings_convert_back_and_forth() {
    let v = chars_of("añb\n💝");
    assert_eq!(v, vec!['a', 'ñ', 'b', '\n', '💝']);
    assert_eq!(string_of(&v, 0, 5), "añb\n💝");
    assert_eq!(string_of(&v, 1, 3), "ñb");
    assert_eq!(string_of(&v, 2, 2), "");
    assert_eq!(chars_of(""), Vec::<char>::new());
}

#[test]
fn trim_takes_white_space_off_both_ends() {
    assert_eq!(trim("  a b  "), "a b");
    assert_eq!(trim("\t\n\u{b}\u{c}\r x\u{a0}\u{2003}\u{3000}"), "x");
    assert_eq!(trim("x"), "x");
    assert_eq!(trim(""), "");
    assert_eq!(trim(" \n "), "");
    assert_eq!(trim("a\n"), "a");
    assert_eq!(trim(" a"), "a");
    assert_eq!(trim_chars(&vec![' ', 'a', ' ', 'b', ' ']), "a b");
}

#[test]
fn trim_agrees_with_the_standard_trim() {
    for text in ["", " ", "a", " a ", "\u{85}a\u{1680}", "a \u{200b} ", "  \u{feff}x", "\r\nab\r\n"] {
        assert_eq!(trim(text), text.trim());
    }
    for code in 0u32..=0x10ffff {
        if let Some(c) = char::from_u32(code) {
            let text = format!("{}x{}", c, c);
            assert_eq!(trim(&text), text.trim());
        }
    }
}

#[test]
fn split_gives_the_parts_between_separators() {
    let parts = |text: &str, sep: char| -> Vec<String> {
        split_chars(&text.chars().collect(), sep)
            .iter()
            .map(|part| part.iter().collect())
            .collect()
    };
    assert_eq!(parts("a,b,,c", ','), vec!["a", "b", "", "c"]);
    assert_eq!(parts("", ','), vec![""]);
    assert_eq!(parts(",", ','), vec!["", ""]);
    assert_eq!(parts("a,", ','), vec!["a", ""]);
    assert_eq!(parts("abc", ','), vec!["abc"]);
    for text in ["a;b;c", ";;x;", "é;ü", "no separator"] {
        let expected: Vec<String> = text.split(';').map(|s| s.to_string()).collect();
        assert_eq!(parts(text, ';'), expected);
    }
}
