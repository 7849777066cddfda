use ftdv::display::{
    calculate_display_width, calculate_stripped_width, calculate_text_width, clamp_offsets,
    contains_escape, is_control, measure_content,
};
use ftdv::icons::{extension_icon_of, get_directory_icon, get_file_icon, special_icon_of};
use ftdv::paths::{base_name_of, extension_of, find_last, split_components};
use ftdv::text::{
    all_whitespace, append_chars, body_end, chars_of, copy_range, decimal_chars, find,
    is_lex_less, is_whitespace, lines_of, lowercase_chars, matches_at, owned, replace,
    replace_separators, same_chars, split_whitespace, starts_with, str_equal, string_of,
    strip_prefix,
};
use ftdv::tree::sibling_precedes;

fn cs(s: &str) -> Vec<char> {
    s.chars().collect()
}

fn strs(v: Vec<Vec<char>>) -> Vec<String> {
    v.into_iter().map(|w| w.into_iter().collect()).collect()
}

#[test]
fn strings_and_characters_convert_both_ways() {
    assert_eq!(chars_of("a\u{e9}\u{1f600}b"), vec!['a', '\u{e9}', '\u{1f600}', 'b']);
    assert!(chars_of("").is_empty());
    assert_eq!(string_of(&['a', 'b', '\u{e9}']), "ab\u{e9}");
    assert_eq!(string_of(&[]), "");
    assert_eq!(owned("text"), "text");
    assert!(str_equal("abc", "abc"));
    assert!(!str_equal("abc", "abd"));
    assert!(!str_equal("abc", "ab"));
    assert_eq!(copy_range(&cs("hello"), 1, 3), cs("el"));
    let mut buf = cs("ab");
    append_chars(&mut buf, &cs("cd"));
    assert_eq!(buf, cs("abcd"));
}

#[test]
fn lines_keep_their_terminators() {
    assert_eq!(strs(lines_of(&cs("a\nb\r\n\nc"))), vec!["a\n", "b\r\n", "\n", "c"]);
    assert_eq!(strs(lines_of(&cs("a\n"))), vec!["a\n"]);
    assert!(lines_of(&cs("")).is_empty());
    assert_eq!(strs(lines_of(&cs("\n"))), vec!["\n"]);
    for text in ["", "a", "a\n", "a\nb", "\n\n", "x\r\ny\r\n", "\r"] {
        let joined: String = strs(lines_of(&cs(text))).concat();
        assert_eq!(joined, text);
        assert_eq!(lines_of(&cs(text)).len(), text.lines().count());
    }
}

#[test]
fn the_body_of_a_line_ends_before_its_terminator() {
    assert_eq!(body_end(&cs("abc\n")), 3);
    assert_eq!(body_end(&cs("abc\r\n")), 3);
    assert_eq!(body_end(&cs("abc\r")), 4);
    assert_eq!(body_end(&cs("abc")), 3);
    assert_eq!(body_end(&cs("\n")), 0);
    assert_eq!(body_end(&cs("")), 0);
    assert_eq!(body_end(&cs("a\r\r\n")), 2);
}

#[test]
fn whitespace_is_the_unicode_property() {
    for code in 0u32..=0x10ffff {
        if let Some(c) = char::from_u32(code) {
            assert_eq!(is_whitespace(c), c.is_whitespace(), "U+{:04X}", code);
            assert_eq!(is_control(c), c.is_control(), "U+{:04X}", code);
        }
    }
    assert!(!is_whitespace('\u{180e}'));
    assert!(!is_whitespace('\u{feff}'));
    assert!(all_whitespace(&cs(" \t\n\u{3000}")));
    assert!(all_whitespace(&cs("")));
    assert!(!all_whitespace(&cs("  x ")));
}

#[test]
fn words_are_runs_without_whitespace() {
    for text in ["", " ", "a", " a ", "a b", "  diff --git  a/x\tb/x\r\n", "\u{a0}x\u{2003}y", "one"] {
        let expected: Vec<String> = text.split_whitespace().map(|w| w.to_string()).collect();
        assert_eq!(strs(split_whitespace(&cs(text))), expected, "text {:?}", text);
    }
}

#[test]
fn searching_finds_the_first_occurrence() {
    assert_eq!(find(&cs("abcabc"), &cs("bc")), Some(1));
    assert_eq!(find(&cs("abcabc"), &cs("abc")), Some(0));
    assert_eq!(find(&cs("abcabc"), &cs("cab")), Some(2));
    assert_eq!(find(&cs("abc"), &cs("")), Some(0));
    assert_eq!(find(&cs(""), &cs("")), Some(0));
    assert_eq!(find(&cs("abc"), &cs("abcd")), None);
    assert_eq!(find(&cs("abc"), &cs("x")), None);
    assert_eq!(find(&cs("aab"), &cs("ab")), Some(1));
    assert!(matches_at(&cs("abc"), &cs("c"), 2));
    assert!(matches_at(&cs("abc"), &cs(""), 3));
    assert!(!matches_at(&cs("abc"), &cs("c"), 3));
    assert!(starts_with(&cs("diff --git a b"), &cs("diff --git")));
    assert!(starts_with(&cs("x"), &cs("")));
    assert!(!starts_with(&cs("dif"), &cs("diff")));
    assert!(same_chars(&cs("ab"), &cs("ab")));
    assert!(!same_chars(&cs("ab"), &cs("ba")));
}

#[test]
fn a_prefix_is_taken_off_once() {
    assert_eq!(strip_prefix(&cs("a/a/b.rs"), &cs("a/")), cs("a/b.rs"));
    assert_eq!(strip_prefix(&cs("a/b.rs"), &cs("a/")), cs("b.rs"));
    assert_eq!(strip_prefix(&cs("a/"), &cs("a/")), cs(""));
    assert_eq!(strip_prefix(&cs("b/a/"), &cs("a/")), cs("b/a/"));
    assert_eq!(strip_prefix(&cs("aaa"), &cs("")), cs("aaa"));
    assert_eq!(strip_prefix(&cs("a"), &cs("a/")), cs("a"));
    assert_eq!(strip_prefix(&cs(""), &cs("a/")), cs(""));
    for (text, pat) in [("a/a/a", "a/"), ("xxxy", "x"), ("abab", "ab"), ("", "a"), ("b", "a")] {
        assert_eq!(
            string_of(&strip_prefix(&cs(text), &cs(pat))),
            text.strip_prefix(pat).unwrap_or(text)
        );
    }
}

#[test]
fn replacing_takes_occurrences_from_the_left() {
    for (text, from, to) in [
        ("aaa", "aa", "b"),
        ("abcabc", "bc", "X"),
        ("{{width}}x{{width}}", "{{width}}", "80"),
        ("abc", "d", "e"),
        ("abc", "abc", ""),
        ("ab", "abc", "x"),
        ("", "a", "b"),
        ("aXbXc", "X", "XX"),
    ] {
        assert_eq!(string_of(&replace(&cs(text), &cs(from), &cs(to))), text.replace(from, to));
    }
    // Nothing is looked for: nothing is replaced.
    assert_eq!(replace(&cs("abc"), &cs(""), &cs("x")), cs("abc"));
    assert_eq!(replace_separators(&cs("a/b\\c_d")), cs("a_b_c_d"));
}

#[test]
fn texts_are_ordered_by_code_point() {
    for (a, b) in [("a", "b"), ("", "a"), ("a", "ab"), ("ab", "b"), ("A", "a"), ("a", "a"), ("b", "a"), ("z", "\u{e9}"), ("a/b", "a0")] {
        assert_eq!(is_lex_less(&cs(a), &cs(b)), a < b, "{:?} < {:?}", a, b);
        assert_eq!(is_lex_less(&cs(b), &cs(a)), b < a, "{:?} < {:?}", b, a);
    }
}

#[test]
fn numbers_are_written_in_decimal() {
    for n in [0u64, 1, 9, 10, 11, 99, 100, 101, 12345, 65535, u64::MAX] {
        assert_eq!(string_of(&decimal_chars(n)), n.to_string());
    }
}

#[test]
fn lower_case_is_that_of_the_standard_library() {
    assert_eq!(lowercase_chars("AbC"), cs("abc"));
    assert_eq!(lowercase_chars("\u{130}"), cs("i\u{307}"));
    assert_eq!(lowercase_chars(""), cs(""));
}

#[test]
fn siblings_are_ordered_by_kind_then_name() {
    let before = |a: (bool, &str), b: (bool, &str)| {
        sibling_precedes(
            a.0,
            &lowercase_chars(a.1),
            &cs(a.1),
            b.0,
            &lowercase_chars(b.1),
            &cs(b.1),
        )
    };
    assert!(before((true, "z"), (false, "a")));
    assert!(!before((false, "a"), (true, "z")));
    assert!(before((false, "a"), (false, "B")));
    assert!(!before((false, "B"), (false, "a")));
    assert!(before((false, "A"), (false, "a")));
    assert!(!before((false, "a"), (false, "A")));
    assert!(!before((false, "a"), (false, "a")));
    assert!(before((true, "Src"), (true, "src")));
}

#[test]
fn paths_are_split_at_slashes() {
    for path in ["a/b/c", "a", "", "a/", "/a", "a//b", "/"] {
        let expected: Vec<String> = path.split('/').map(|p| p.to_string()).collect();
        assert_eq!(strs(split_components(&cs(path))), expected, "path {:?}", path);
    }
    assert_eq!(base_name_of(&cs("a/b/c.rs")), cs("c.rs"));
    assert_eq!(base_name_of(&cs("c.rs")), cs("c.rs"));
    assert_eq!(base_name_of(&cs("a/")), cs(""));
    assert_eq!(find_last(&cs("a.b.c"), '.'), Some(3));
    assert_eq!(find_last(&cs("abc"), '.'), None);
}

#[test]
fn extensions_follow_the_last_dot() {
    let ext = |name: &str| extension_of(&cs(name)).map(|e| e.into_iter().collect::<String>());
    for name in ["a.rs", "a.tar.gz", "a", ".gitignore", ".a.b", "a.", "dir/a.rs", "dir.d/a", "..", "a..b", ""] {
        let expected =
            std::path::Path::new(name).extension().map(|e| e.to_str().unwrap().to_string());
        assert_eq!(ext(name), expected, "name {:?}", name);
    }
}

#[test]
fn icons_go_by_name_and_extension() {
    assert_eq!(get_file_icon("Cargo.toml"), '\u{e7a8}');
    assert_eq!(get_file_icon("Cargo.lock"), '\u{e7a8}');
    assert_eq!(get_file_icon(".gitignore"), '\u{f1d3}');
    assert_eq!(get_file_icon("Makefile"), '\u{e779}');
    assert_eq!(get_file_icon("CMakeLists.txt"), '\u{e779}');
    assert_eq!(get_file_icon(".editorconfig"), '\u{e615}');
    assert_eq!(get_file_icon("README"), '\u{f48a}');
    assert_eq!(get_file_icon("README.md"), '\u{f48a}');
    assert_eq!(get_file_icon("LICENSE"), '\u{f15c}');
    assert_eq!(get_file_icon("CHANGELOG.md"), '\u{f48a}');
    assert_eq!(get_file_icon("main.rs"), '\u{e7a8}');
    assert_eq!(get_file_icon("MAIN.RS"), '\u{e7a8}');
    assert_eq!(get_file_icon("a.py"), '\u{e73c}');
    assert_eq!(get_file_icon("a.jsx"), '\u{e74e}');
    assert_eq!(get_file_icon("a.tsx"), '\u{e628}');
    assert_eq!(get_file_icon("a.go"), '\u{e724}');
    assert_eq!(get_file_icon("a.jar"), '\u{e738}');
    assert_eq!(get_file_icon("a.h"), '\u{e61e}');
    assert_eq!(get_file_icon("a.hpp"), '\u{e61d}');
    assert_eq!(get_file_icon("a.rb"), '\u{e739}');
    assert_eq!(get_file_icon("a.json"), '\u{e60b}');
    assert_eq!(get_file_icon("a.YML"), '\u{f481}');
    assert_eq!(get_file_icon("a.toml"), '\u{e615}');
    assert_eq!(get_file_icon("a.cfg"), '\u{e615}');
    assert_eq!(get_file_icon("a.markdown"), '\u{f48a}');
    assert_eq!(get_file_icon("a.txt"), '\u{f15c}');
    assert_eq!(get_file_icon("a.htm"), '\u{e736}');
    assert_eq!(get_file_icon("a.scss"), '\u{e749}');
    assert_eq!(get_file_icon("a.xyz"), '\u{f15b}');
    assert_eq!(get_file_icon("noextension"), '\u{f15b}');
    assert_eq!(get_file_icon(""), '\u{f15b}');
    assert_eq!(get_file_icon(".rs"), '\u{f15b}');
    assert_eq!(get_file_icon("readme"), '\u{f15b}');
    assert_eq!(special_icon_of("makefile"), Some('\u{e779}'));
    assert_eq!(special_icon_of("main.rs"), None);
    assert_eq!(extension_icon_of(&cs("rs")), '\u{e7a8}');
    assert_eq!(extension_icon_of(&cs("RS")), '\u{f15b}');
    assert_eq!(get_directory_icon(true), '\u{f115}');
    assert_eq!(get_directory_icon(false), '\u{f114}');
}

#[test]
fn widths_count_tabs_as_four_and_controls_as_nothing() {
    assert_eq!(calculate_text_width(&cs("abc")), 3);
    assert_eq!(calculate_text_width(&cs("a\tb")), 6);
    assert_eq!(calculate_text_width(&cs("a\u{7}b\r")), 2);
    assert_eq!(calculate_text_width(&cs("")), 0);
    assert_eq!(calculate_text_width(&cs("\u{e9}\u{4e2d}")), 2);
}

#[test]
fn escape_sequences_take_no_room() {
    assert_eq!(calculate_display_width("\u{1b}[32mfoo\u{1b}[m bar"), 7);
    assert_eq!(calculate_display_width("foo bar"), 7);
    assert_eq!(calculate_display_width("\u{1b}[1;31m\u{1b}[0m"), 0);
    assert_eq!(calculate_display_width("a\tb"), 6);
    assert!(contains_escape(&cs("a\u{1b}[0m")));
    assert!(!contains_escape(&cs("abc")));
}

#[test]
fn bytes_that_are_no_text_count_as_the_bytes_of_the_line() {
    assert_eq!(calculate_stripped_width(b"foo bar".to_vec(), "whatever"), 7);
    assert_eq!(calculate_stripped_width("a\u{e9}\t".as_bytes().to_vec(), "x"), 6);
    // Not valid UTF-8: the bytes of the line are counted, not its characters.
    assert_eq!(calculate_stripped_width(vec![0xff, 0xfe], "\u{e9}\u{1b}"), 3);
    assert_eq!(calculate_stripped_width(vec![0xc3], ""), 0);
    assert_eq!(calculate_stripped_width(vec![], "abc"), 0);
}

#[test]
fn content_is_measured_in_lines_and_columns() {
    assert_eq!(measure_content(""), (0, 0));
    assert_eq!(measure_content("abc"), (1, 3));
    assert_eq!(measure_content("a\nabcd\r\nab\n"), (3, 4));
    assert_eq!(measure_content("\u{1b}[32mlong line\u{1b}[0m\nx"), (2, 9));
    assert_eq!(measure_content("\n\n\n"), (3, 0));
    let tall = "x\n".repeat(65537);
    assert_eq!(measure_content(&tall), (1, 1));
}

#[test]
fn offsets_are_clamped_to_the_content() {
    // 100 lines of 50 columns in a viewport of 20 by 30, border included.
    assert_eq!(clamp_offsets((0, 0), (100, 50), 20, 30), (0, 0));
    assert_eq!(clamp_offsets((82, 22), (100, 50), 20, 30), (82, 22));
    assert_eq!(clamp_offsets((83, 23), (100, 50), 20, 30), (82, 22));
    assert_eq!(clamp_offsets((u16::MAX, u16::MAX), (100, 50), 20, 30), (82, 22));
    // Content that fits cannot be scrolled.
    assert_eq!(clamp_offsets((5, 5), (10, 10), 20, 30), (0, 0));
    assert_eq!(clamp_offsets((5, 5), (18, 28), 20, 30), (0, 0));
    assert_eq!(clamp_offsets((5, 5), (19, 29), 20, 30), (1, 1));
    // A viewport smaller than its border shows nothing.
    assert_eq!(clamp_offsets((5, 5), (3, 3), 1, 0), (3, 3));
}
