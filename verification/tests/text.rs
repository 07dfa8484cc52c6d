use docpkg::text::{
    chars_of, contains, join, join_path, parse_small_number, remove_char, string_of, substitute,
    trim, white_space,
};

#[test]
fn chars_and_strings_convert_both_ways() {
    assert_eq!(chars_of("a\u{00e9}\u{2013}z"), vec!['a', '\u{00e9}', '\u{2013}', 'z']);
    assert_eq!(chars_of(""), Vec::<char>::new());
    let chars = vec!['h', 'e', 'l', 'l', 'o'];
    assert_eq!(string_of(&chars, 1, 4), "ell");
    assert_eq!(string_of(&chars, 0, 5), "hello");
    assert_eq!(string_of(&chars, 2, 2), "");
}

#[test]
fn remove_char_takes_every_occurrence_out() {
    assert_eq!(remove_char("main\n", '\n'), "main");
    assert_eq!(remove_char("\na\n\nb\n", '\n'), "ab");
    assert_eq!(remove_char("", '\n'), "");
    assert_eq!(remove_char("no line end", '\n'), "no line end");
}

#[test]
fn substitute_replaces_every_occurrence() {
    assert_eq!(substitute("a\"b\"", '"', "\\\""), "a\\\"b\\\"");
    assert_eq!(substitute("aaa", 'a', ""), "");
    assert_eq!(substitute("abc", 'x', "y"), "abc");
}

#[test]
fn join_puts_the_separator_between() {
    let parts = vec!["a".to_string(), "".to_string(), "c".to_string()];
    assert_eq!(join(&parts, ", "), "a, , c");
    assert_eq!(join(&parts[..1].to_vec(), ", "), "a");
    assert_eq!(join(&Vec::new(), ", "), "");
}

#[test]
fn join_path_resolves_against_the_base() {
    assert_eq!(join_path("repo", "target/docpkg"), "repo/target/docpkg");
    assert_eq!(join_path("repo/", "README.md"), "repo/README.md");
    assert_eq!(join_path("", "README.md"), "README.md");
    assert_eq!(join_path("repo", "/etc/hosts"), "/etc/hosts");
    assert_eq!(join_path("/", "a"), "/a");
    assert_eq!(join_path("repo", ""), "repo/");
}

#[test]
fn join_path_agrees_with_the_system() {
    for (base, relative) in
        [("repo", "a/b"), ("repo/", "a"), ("", "a"), ("repo", "/a"), ("/", "a"), ("a/b", "../c")]
    {
        let expected = std::path::Path::new(base).join(relative);
        assert_eq!(std::path::Path::new(&join_path(base, relative)), expected.as_path());
    }
}

#[test]
fn parse_small_number_reads_decimal_numerals() {
    assert_eq!(parse_small_number("0"), Some(0));
    assert_eq!(parse_small_number("37"), Some(37));
    assert_eq!(parse_small_number("007"), Some(7));
    assert_eq!(parse_small_number("65535"), Some(65535));
    assert_eq!(parse_small_number("65536"), None);
    assert_eq!(parse_small_number("99999999999999999999"), None);
    assert_eq!(parse_small_number(""), None);
    assert_eq!(parse_small_number("+1"), None);
    assert_eq!(parse_small_number("-1"), None);
    assert_eq!(parse_small_number("1 "), None);
    assert_eq!(parse_small_number("1a"), None);
    assert_eq!(parse_small_number("\u{0663}"), None);
}

#[test]
fn white_space_is_what_the_system_takes_for_it() {
    for code in 0..=0x10FFFFu32 {
        if let Some(c) = char::from_u32(code) {
            assert_eq!(white_space(c), c.is_whitespace(), "U+{:04X}", code);
        }
    }
}

#[test]
fn trim_cuts_the_white_space_around() {
    for text in [
        "",
        " ",
        "\n\t \r\n",
        "a",
        "  a  ",
        "\n  Example content.\n\n",
        "a b",
        "\u{00a0}a\u{3000}b\u{2003}",
        "\u{200b}a\u{200b}",
        " \u{0085}x y\u{2028}\u{2029} ",
    ] {
        assert_eq!(trim(text), text.trim());
    }
    assert_eq!(trim("\n  Example content.\n\n"), "Example content.");
    assert_eq!(trim(" \t "), "");
}

#[test]
fn contains_finds_the_part_wherever_it_stands() {
    for (text, part) in [
        ("", ""),
        ("a", ""),
        ("", "a"),
        ("abc", "abc"),
        ("abc", "abcd"),
        ("xabc", "abc"),
        ("abcx", "abc"),
        ("ababac", "abac"),
        ("aaab", "aab"),
        ("nothing to commit, working tree clean", "nothing to commit"),
        ("nothing added to commit", "nothing to commit"),
        ("d\u{00e9}j\u{00e0} vu", "j\u{00e0}"),
        ("d\u{00e9}j\u{00e0} vu", "ja"),
    ] {
        assert_eq!(contains(text, part), text.contains(part), "{:?} in {:?}", part, text);
    }
}
