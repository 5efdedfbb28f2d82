use sharun::text::{
    chars_of, find_char, first_token_text, has_prefix, has_suffix, has_text, is_space,
    join_text, matches_at, replace_text, slice_text, split_text, str_eq, string_of,
    str_concat, strip_quotes_text, tail_strings, text_eq, trim_text,
};

fn cs(s: &str) -> Vec<char> {
    s.chars().collect()
}

#[test]
fn chars_and_strings_convert_both_ways() {
    assert_eq!(chars_of("héllo"), vec!['h', 'é', 'l', 'l', 'o']);
    assert_eq!(string_of(&vec!['a', '/', 'b']), "a/b");
    assert_eq!(string_of(&chars_of("x=y z")), "x=y z");
}

#[test]
fn concat_appends() {
    assert_eq!(str_concat("/opt", "/../"), "/opt/../");
    assert_eq!(str_concat("", ""), "");
}

#[test]
fn equality_compares_characters() {
    assert!(str_eq("sharun", "sharun"));
    assert!(!str_eq("sharun", "sharum"));
    assert!(!str_eq("a", "ab"));
    assert!(text_eq(&cs(""), &cs("")));
    assert!(!text_eq(&cs("abc"), &cs("abd")));
}

#[test]
fn split_cuts_at_every_separator() {
    assert_eq!(split_text(&cs("a/b/c"), '/'), vec![cs("a"), cs("b"), cs("c")]);
    assert_eq!(split_text(&cs("/x"), '/'), vec![cs(""), cs("x")]);
    assert_eq!(split_text(&cs("a//"), '/'), vec![cs("a"), cs(""), cs("")]);
    assert_eq!(split_text(&cs(""), '/'), vec![cs("")]);
}

#[test]
fn join_puts_separator_between_pieces() {
    assert_eq!(join_text(&vec![cs("a"), cs("b"), cs("c")], &cs(":")), cs("a:b:c"));
    assert_eq!(join_text(&vec![cs("only")], &cs(":")), cs("only"));
    assert_eq!(join_text(&vec![], &cs(":")), cs(""));
    assert_eq!(join_text(&vec![cs(""), cs("")], &cs("/")), cs("/"));
}

#[test]
fn join_of_split_gives_text_back() {
    let text = cs("/opt//bundle/bin/");
    assert_eq!(join_text(&split_text(&text, '/'), &cs("/")), text);
}

#[test]
fn matches_at_checks_one_position() {
    assert!(matches_at(&cs("libfoo.so.1"), &cs(".so"), 6));
    assert!(!matches_at(&cs("libfoo.so.1"), &cs(".so"), 5));
    assert!(!matches_at(&cs("ab"), &cs("abc"), 0));
    assert!(!matches_at(&cs("ab"), &cs("b"), 2));
    assert!(matches_at(&cs("ab"), &cs(""), 2));
}

#[test]
fn prefix_suffix_and_containment() {
    assert!(has_prefix(&cs("Exec=app"), &cs("Exec=")));
    assert!(!has_prefix(&cs("exec=app"), &cs("Exec=")));
    assert!(has_suffix(&cs("libfoo.so"), &cs(".so")));
    assert!(!has_suffix(&cs("libfoo.so.1"), &cs(".so")));
    assert!(!has_suffix(&cs("so"), &cs(".so")));
    assert!(has_text(&cs("libfoo.so.1"), &cs(".so.")));
    assert!(!has_text(&cs("libfoo.so"), &cs(".so.")));
    assert!(has_text(&cs("abc"), &cs("")));
    assert!(has_text(&cs("abc"), &cs("c")));
}

#[test]
fn slice_copies_a_range() {
    assert_eq!(slice_text(&cs("KEY=value"), 4, 9), cs("value"));
    assert_eq!(slice_text(&cs("abc"), 1, 1), cs(""));
}

#[test]
fn find_char_gives_first_position_or_length() {
    assert_eq!(find_char(&cs("A=b=c"), '='), 1);
    assert_eq!(find_char(&cs("none"), '='), 4);
    assert_eq!(find_char(&cs(""), '='), 0);
}

#[test]
fn replace_exchanges_every_occurrence() {
    assert_eq!(replace_text(&cs("+:a:b"), &cs(":"), &cs("\n")), cs("+\na\nb"));
    assert_eq!(replace_text(&cs("/r/x:/r/y"), &cs("/r"), &cs("+")), cs("+/x:+/y"));
    assert_eq!(replace_text(&cs("abc"), &cs("zz"), &cs("+")), cs("abc"));
    assert_eq!(replace_text(&cs(""), &cs("a"), &cs("+")), cs(""));
}

#[test]
fn replace_does_not_overlap_matches() {
    assert_eq!(replace_text(&cs("aaa"), &cs("aa"), &cs("b")), cs("ba"));
    assert_eq!(replace_text(&cs("aaaa"), &cs("aa"), &cs("b")), cs("bb"));
}

#[test]
fn replace_of_empty_pattern_goes_between_characters() {
    assert_eq!(replace_text(&cs("abc"), &cs(""), &cs("-")), cs("-a-b-c-"));
    assert_eq!(replace_text(&cs(""), &cs(""), &cs("-")), cs("-"));
}

#[test]
fn replace_agrees_with_std() {
    for (s, p, w) in [("a+b+a+b", "a+b", "+"), ("xxabxx", "x", ""), ("path/to/path", "path", "p")] {
        assert_eq!(string_of(&replace_text(&cs(s), &cs(p), &cs(w))), s.replace(p, w));
    }
}

#[test]
fn whitespace_is_the_unicode_property() {
    for c in [' ', '\t', '\n', '\r', '\u{0B}', '\u{0C}', '\u{85}', '\u{A0}', '\u{1680}', '\u{2000}',
        '\u{200A}', '\u{2028}', '\u{2029}', '\u{202F}', '\u{205F}', '\u{3000}']
    {
        assert!(is_space(c));
    }
    for c in ['a', '=', '#', '\u{200B}', '\u{180E}', '\u{FEFF}', '\0'] {
        assert!(!is_space(c));
    }
}

#[test]
fn whitespace_agrees_with_std_on_every_character() {
    let mut code: u32 = 0;
    while code <= 0x10FFFF {
        if let Some(c) = char::from_u32(code) {
            assert_eq!(is_space(c), c.is_whitespace());
        }
        code += 1;
    }
}

#[test]
fn trim_drops_whitespace_at_both_ends() {
    assert_eq!(trim_text(&cs("  value \r")), cs("value"));
    assert_eq!(trim_text(&cs("a b")), cs("a b"));
    assert_eq!(trim_text(&cs(" \t\n")), cs(""));
    assert_eq!(trim_text(&cs("")), cs(""));
}

#[test]
fn first_token_is_first_word() {
    assert_eq!(first_token_text(&cs("  app --flag %U")), cs("app"));
    assert_eq!(first_token_text(&cs("app")), cs("app"));
    assert_eq!(first_token_text(&cs("   ")), cs(""));
    assert_eq!(first_token_text(&cs("")), cs(""));
}

#[test]
fn strip_quotes_removes_both_kinds() {
    assert_eq!(strip_quotes_text(&cs("\"my'app\"")), cs("myapp"));
    assert_eq!(strip_quotes_text(&cs("plain")), cs("plain"));
}

#[test]
fn tail_strings_skips_the_first() {
    let list = vec!["a".to_string(), "b".to_string(), "c".to_string()];
    assert_eq!(tail_strings(&list, 1), vec!["b".to_string(), "c".to_string()]);
    assert_eq!(tail_strings(&list, 0), list);
    assert_eq!(tail_strings(&list, 3), Vec::<String>::new());
    assert_eq!(tail_strings(&list, 7), Vec::<String>::new());
}
