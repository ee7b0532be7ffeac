use retort::text::{
    chars_of, count_matches, decimal, find, join_range, precedes, replace_once, split_lines,
    string_of, trim,
};

fn lines(s: &str) -> Vec<String> {
    split_lines(&chars_of(s)).iter().map(string_of).collect()
}

#[test]
fn text_is_split_into_lines_as_the_standard_library_does() {
    for s in ["", "\n", "a", "a\n", "a\n\n", "\n\na", "a\r\nb\r", "\r\n", "a\rb\n", "x\n\r\ny\n"] {
        let want: Vec<String> = s.lines().map(|l| l.to_string()).collect();
        assert_eq!(lines(s), want);
    }
    assert_eq!(lines("a\r\nb\r"), vec!["a", "b\r"]);
    assert_eq!(lines("a\n\n"), vec!["a", ""]);
}

#[test]
fn lines_are_joined_with_line_feeds() {
    let rows = split_lines(&chars_of("a\nb\n\nc"));
    assert_eq!(string_of(&join_range(&rows, 0, 4)), "a\nb\n\nc");
    assert_eq!(string_of(&join_range(&rows, 1, 3)), "b\n");
    assert_eq!(string_of(&join_range(&rows, 2, 3)), "");
    assert_eq!(string_of(&join_range(&rows, 2, 2)), "");
}

#[test]
fn trimming_removes_unicode_white_space_at_both_ends() {
    for s in ["", " ", "a", " a b ", "\u{2003}x\u{2028}", "\u{85}\u{1680}y\u{202f}\u{205f}", "\u{200b}z "] {
        assert_eq!(string_of(&trim(&chars_of(s))), s.trim());
    }
}

#[test]
fn search_finds_the_first_occurrence_and_counts_without_overlap() {
    let hay = chars_of("abcabcab");
    assert_eq!(find(&hay, &chars_of("abc"), 0), Some(0));
    assert_eq!(find(&hay, &chars_of("abc"), 1), Some(3));
    assert_eq!(find(&hay, &chars_of("abc"), 4), None);
    assert_eq!(find(&hay, &chars_of("ab"), 6), Some(6));
    assert_eq!(find(&hay, &chars_of("abcabcabc"), 0), None);
    assert_eq!(count_matches(&hay, &chars_of("abc")), 2);
    assert_eq!(count_matches(&hay, &chars_of("ab")), 3);
    assert_eq!(count_matches(&chars_of("aaaaa"), &chars_of("aa")), 2);
    assert_eq!(string_of(&replace_once(&hay, &chars_of("ca"), &chars_of("-"))), "ab-bcab");
    assert_eq!(string_of(&replace_once(&hay, &chars_of("zz"), &chars_of("-"))), "abcabcab");
}

#[test]
fn order_of_texts_is_that_of_strings() {
    let words = ["", "a", "ab", "b", "B", "a\u{e9}", "\u{10000}", "\u{ffff}", "aa"];
    for x in words {
        for y in words {
            assert_eq!(precedes(&chars_of(x), &chars_of(y)), x < y);
        }
    }
}

#[test]
fn numbers_are_written_in_decimal_digits() {
    for n in [0usize, 7, 10, 12, 99, 100, 1234567890] {
        assert_eq!(string_of(&decimal(n)), format!("{}", n));
    }
}
