use estacoes_manager::utils::text::{
    chars_between, chars_contain, chars_le, chars_match_at, chars_of, is_whitespace_char,
    same_chars, str_eq, str_starts_with, string_of,
};

#[test]
fn chars_of_gives_the_characters() {
    assert_eq!(chars_of("aç1"), vec!['a', 'ç', '1']);
    assert_eq!(chars_of(""), Vec::<char>::new());
}

#[test]
fn string_of_takes_a_part() {
    let chars = vec!['R', 'F', 'e', 'y', 'e', '0', '1'];
    assert_eq!(string_of(&chars, 0, 7), "RFeye01");
    assert_eq!(string_of(&chars, 5, 7), "01");
    assert_eq!(string_of(&chars, 3, 3), "");
    assert_eq!(chars_between(&chars, 1, 3), vec!['F', 'e']);
}

#[test]
fn strings_are_compared_by_their_characters() {
    assert!(str_eq("ativo", "ativo"));
    assert!(str_eq("", ""));
    assert!(!str_eq("ativo", "ativa"));
    assert!(!str_eq("ativo", "ativos"));
    assert!(same_chars(&vec!['a'], &vec!['a']));
    assert!(!same_chars(&vec!['a'], &vec!['b']));
}

#[test]
fn prefixes_and_parts_are_found() {
    assert!(str_starts_with("GR01", "GR"));
    assert!(str_starts_with("GR", "GR"));
    assert!(str_starts_with("GR", ""));
    assert!(!str_starts_with("G", "GR"));
    assert!(!str_starts_with("xGR", "GR"));
    let has = |s: &str, pat: &str| chars_contain(&chars_of(s), &chars_of(pat));
    assert!(has("estacao rfeye 12", "rfeye"));
    assert!(has("rfeye", "rfeye"));
    assert!(has("abc", ""));
    assert!(has("", ""));
    assert!(!has("rfey", "rfeye"));
    assert!(!has("", "a"));
    assert!(has("aab", "ab"));
}

#[test]
fn a_pattern_is_matched_at_a_place() {
    let s = chars_of("xxums300");
    let p = chars_of("ums");
    assert!(chars_match_at(&s, &p, 2));
    assert!(!chars_match_at(&s, &p, 0));
    assert!(!chars_match_at(&s, &p, 6));
    assert!(!chars_match_at(&s, &p, 9));
    assert!(chars_contain(&s, &p));
    assert!(!chars_contain(&p, &s));
}

#[test]
fn texts_are_ordered_as_strings_are() {
    let words = ["", "A", "B", "a", "ab", "abc", "b", "z", "é", "日本"];
    for a in words {
        for b in words {
            assert_eq!(chars_le(&chars_of(a), &chars_of(b)), a <= b);
        }
    }
}

#[test]
fn white_space_is_what_the_characters_say_of_themselves() {
    for code in 0..=0x10ffffu32 {
        if let Some(c) = char::from_u32(code) {
            assert_eq!(is_whitespace_char(c), c.is_whitespace());
        }
    }
}
