use tag_track::text::{
    append_chars, chars_of, contains, decimal_of, digit_char, find_char, matches_at, remove_chars,
    remove_substring, replace_each, replace_substring, same_text, slice_of, split_first,
    split_lines, string_of, trim, white_space,
};

fn c(s: &str) -> Vec<char> {
    s.chars().collect()
}

fn s(v: Vec<char>) -> String {
    v.into_iter().collect()
}

#[test]
fn chars_and_back() {
    assert_eq!(chars_of("héllo ✓"), c("héllo ✓"));
    assert_eq!(chars_of(""), Vec::<char>::new());
    assert_eq!(string_of(&c("héllo ✓")), "héllo ✓");
    assert_eq!(string_of(&Vec::new()), "");
}

#[test]
fn same_text_compares_whole_texts() {
    assert!(same_text("abc", "abc"));
    assert!(same_text("", ""));
    assert!(!same_text("abc", "abd"));
    assert!(!same_text("abc", "ab"));
    assert!(!same_text("", "a"));
}

#[test]
fn trim_strips_both_ends_only() {
    assert_eq!(s(trim(&c("  a b \t\n"))), "a b");
    assert_eq!(s(trim(&c("a"))), "a");
    assert_eq!(s(trim(&c(" \u{3000}\u{a0}x\u{2003}"))), "x");
    assert_eq!(s(trim(&c("   "))), "");
    assert_eq!(s(trim(&c(""))), "");
    for text in ["", " ", " a", "a ", " a b ", "\n\na\n", "\u{85}x"] {
        assert_eq!(s(trim(&c(text))), text.trim());
    }
}

#[test]
fn remove_chars_drops_every_occurrence() {
    assert_eq!(s(remove_chars(&c("(a(b)c)"), '(', ')')), "abc");
    assert_eq!(s(remove_chars(&c("abc"), '(', ')')), "abc");
    assert_eq!(s(remove_chars(&c(")("), '(', ')')), "");
    assert_eq!(s(remove_chars(&c(""), '(', ')')), "");
}

#[test]
fn replace_each_puts_the_text_in_place() {
    assert_eq!(s(replace_each(&c("a\nb\n"), '\n', &c(" # "))), "a # b # ");
    assert_eq!(s(replace_each(&c("ab"), '\n', &c(" # "))), "ab");
    assert_eq!(s(replace_each(&c("aXa"), 'X', &c(""))), "aa");
    for text in ["", "\n", "\n\n", "a\n\nb", "no breaks"] {
        assert_eq!(s(replace_each(&c(text), '\n', &c(" # "))), text.replace('\n', " # "));
    }
}

#[test]
fn matches_at_checks_one_position() {
    assert!(matches_at(&c("abcabc"), &c("bc"), 1));
    assert!(matches_at(&c("abcabc"), &c("bc"), 4));
    assert!(!matches_at(&c("abcabc"), &c("bc"), 0));
    assert!(!matches_at(&c("abcabc"), &c("bc"), 5));
    assert!(!matches_at(&c("abcabc"), &c("bc"), 6));
    assert!(!matches_at(&c("abcabc"), &c("bc"), 60));
    assert!(matches_at(&c("abc"), &c(""), 3));
    assert!(!matches_at(&c("abc"), &c(""), 4));
    assert!(!matches_at(&c("ab"), &c("abc"), 0));
}

#[test]
fn contains_finds_a_substring() {
    assert!(contains(&c("hello world"), &c("lo w")));
    assert!(contains(&c("hello"), &c("hello")));
    assert!(contains(&c("hello"), &c("o")));
    assert!(contains(&c("hello"), &c("")));
    assert!(contains(&c(""), &c("")));
    assert!(!contains(&c("hello"), &c("world")));
    assert!(!contains(&c("hello"), &c("hello!")));
    assert!(!contains(&c(""), &c("a")));
    assert!(!contains(&c("aab"), &c("aba")));
}

#[test]
fn remove_substring_cuts_left_to_right() {
    assert_eq!(s(remove_substring(&c("abc refs/tags/v1^{}"), &c("refs/tags/"))), "abc v1^{}");
    assert_eq!(s(remove_substring(&c("abc v1^{}"), &c("^{}"))), "abc v1");
    assert_eq!(s(remove_substring(&c("aaa"), &c("aa"))), "a");
    assert_eq!(s(remove_substring(&c("ababa"), &c("aba"))), "ba");
    assert_eq!(s(remove_substring(&c("abc"), &c("abcd"))), "abc");
    assert_eq!(s(remove_substring(&c(""), &c("a"))), "");
    for (text, needle) in [("xxaxx", "x"), ("a^{}^{}", "^{}"), ("^{^{}}", "^{}"), ("abab", "ab")] {
        assert_eq!(s(remove_substring(&c(text), &c(needle))), text.replace(needle, ""));
    }
}

#[test]
fn find_char_gives_the_first_index_or_the_length() {
    assert_eq!(find_char(&c("a b c"), 0, ' '), 1);
    assert_eq!(find_char(&c("a b c"), 1, ' '), 1);
    assert_eq!(find_char(&c("a b c"), 2, ' '), 3);
    assert_eq!(find_char(&c("a b c"), 4, ' '), 5);
    assert_eq!(find_char(&c("a b c"), 5, ' '), 5);
    assert_eq!(find_char(&c(""), 0, ' '), 0);
}

#[test]
fn slice_of_copies_a_range() {
    assert_eq!(s(slice_of(&c("hello"), 1, 4)), "ell");
    assert_eq!(s(slice_of(&c("hello"), 0, 5)), "hello");
    assert_eq!(s(slice_of(&c("hello"), 2, 2)), "");
}

#[test]
fn split_first_splits_at_the_first_occurrence() {
    let (front, back) = split_first(&c("sha the message"), ' ');
    assert_eq!((s(front), s(back)), ("sha".to_string(), "the message".to_string()));
    let (front, back) = split_first(&c("nothing"), ' ');
    assert_eq!((s(front), s(back)), ("nothing".to_string(), String::new()));
    let (front, back) = split_first(&c(" x"), ' ');
    assert_eq!((s(front), s(back)), (String::new(), "x".to_string()));
    let (front, back) = split_first(&c("x "), ' ');
    assert_eq!((s(front), s(back)), ("x".to_string(), String::new()));
    let (front, back) = split_first(&c(""), ' ');
    assert_eq!((s(front), s(back)), (String::new(), String::new()));
}

#[test]
fn split_lines_splits_at_every_line_feed() {
    for text in ["", "a", "a\nb", "a\n", "\na", "\n", "a\n\nb\n", "one\ntwo\nthree"] {
        let expected: Vec<String> = text.split('\n').map(|l| l.to_string()).collect();
        let lines: Vec<String> = split_lines(&c(text)).into_iter().map(s).collect();
        assert_eq!(lines, expected);
    }
}

#[test]
fn white_space_is_what_the_language_calls_white_space() {
    let mut count = 0;
    for code in 0..=0x10FFFFu32 {
        if let Some(c) = char::from_u32(code) {
            assert_eq!(white_space(c), c.is_whitespace(), "U+{:04X}", code);
            if white_space(c) {
                count += 1;
            }
        }
    }
    assert_eq!(count, 25);
    assert!(white_space(' '));
    assert!(white_space('\t'));
    assert!(white_space('\n'));
    assert!(white_space('\u{3000}'));
    assert!(!white_space('a'));
    assert!(!white_space('\u{200B}'));
    assert!(!white_space('\u{180E}'));
}

#[test]
fn append_chars_adds_at_the_end() {
    let mut out = c("ab");
    append_chars(&mut out, &c("cd"));
    assert_eq!(s(out), "abcd");
    let mut out = c("ab");
    append_chars(&mut out, &c(""));
    assert_eq!(s(out), "ab");
}

#[test]
fn replace_substring_replaces_left_to_right() {
    assert_eq!(s(replace_substring(&c("v1.2.3"), &c("1.2.3"), &c("1.3.0"))), "v1.3.0");
    assert_eq!(s(replace_substring(&c("aaa"), &c("aa"), &c("b"))), "ba");
    assert_eq!(s(replace_substring(&c("abc"), &c("x"), &c("y"))), "abc");
    assert_eq!(s(replace_substring(&c(""), &c("x"), &c("y"))), "");
    for (text, needle, by) in [
        ("ababab", "ab", "ba"),
        ("a.b.c", ".", ".."),
        ("{scope} {scope}", "{scope}", "s"),
        ("xxx", "x", "xx"),
        ("hello", "hello", ""),
    ] {
        assert_eq!(s(replace_substring(&c(text), &c(needle), &c(by))), text.replace(needle, by));
    }
}

#[test]
fn decimal_of_writes_digits() {
    assert_eq!(s(decimal_of(0)), "0");
    assert_eq!(s(decimal_of(7)), "7");
    assert_eq!(s(decimal_of(10)), "10");
    assert_eq!(s(decimal_of(1234567890)), "1234567890");
    assert_eq!(s(decimal_of(u64::MAX)), "18446744073709551615");
    for n in [9u64, 99, 100, 101, 1_000_000, 4_294_967_296] {
        assert_eq!(s(decimal_of(n)), n.to_string());
    }
    for d in 0..10u64 {
        assert_eq!(digit_char(d).to_string(), d.to_string());
    }
}
