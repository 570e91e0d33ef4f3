use shipgate::text::chars::{same, substring, to_chars};
use shipgate::text::number::{read_leading, show, show_signed, show_wide};
use shipgate::text::order::is_before;
use shipgate::text::pad::{align, pad, take_chars};
use shipgate::text::search::{contains, ends_with, seek, starts_with, strip_prefix, trim_start_matches};
use shipgate::text::split::{byte_len, collapse, join, lines, split, trim, trim_start, words};
use shipgate::text::words::has_word;

#[test]
fn lines_end_at_line_feeds() {
    for s in ["", "a", "a\n", "a\n\nb", "\n", "a\r\nb\r", "\r\n", "a\rb\n", "é\n→"] {
        let ours = lines(s);
        let theirs: Vec<&str> = s.lines().collect();
        assert_eq!(ours, theirs, "{s:?}");
    }
}

#[test]
fn words_and_trimming_go_by_white_space() {
    for s in ["", " ", "a", " a  b\t\nc ", "\u{a0}x\u{2003}y", "\u{b}z\u{c}", "\u{200b}q "] {
        let theirs: Vec<&str> = s.split_whitespace().collect();
        assert_eq!(words(s), theirs, "{s:?}");
        assert_eq!(trim(s), s.trim(), "{s:?}");
        assert_eq!(trim_start(s), s.trim_start(), "{s:?}");
    }
    assert_eq!(collapse("  a \t b "), "a b");
}

#[test]
fn pieces_lie_between_separators() {
    for (s, sep) in [("a+b+", "+"), ("", ","), ("aaa", "aa"), ("x b/y b/z", " b/"), ("none", "?")] {
        let theirs: Vec<&str> = s.split(sep).collect();
        assert_eq!(split(s, sep), theirs, "{s:?} by {sep:?}");
    }
    let parts = vec!["a".to_string(), "b".to_string(), "c".to_string()];
    assert_eq!(join(&parts, ", "), "a, b, c");
    assert_eq!(join(&parts[..1], ", "), "a");
    assert_eq!(join(&[], ", "), "");
}

#[test]
fn texts_are_found_where_they_stand() {
    for (s, pat) in [("abcabc", "ca"), ("abc", ""), ("", "a"), ("aab", "ab"), ("é→é", "→")] {
        assert_eq!(contains(s, pat), s.contains(pat), "{s:?} {pat:?}");
        assert_eq!(starts_with(s, pat), s.starts_with(pat), "{s:?} {pat:?}");
        assert_eq!(ends_with(s, pat), s.ends_with(pat), "{s:?} {pat:?}");
        assert_eq!(strip_prefix(s, pat).as_deref(), s.strip_prefix(pat), "{s:?} {pat:?}");
    }
    let hay = to_chars("abcabc");
    assert_eq!(seek(&hay, &to_chars("bc"), 2), Some(4));
    assert_eq!(seek(&hay, &to_chars("bc"), 5), None);
    assert_eq!(trim_start_matches("++x+", "+"), "x+");
    assert_eq!(trim_start_matches("x", ""), "x");
    assert_eq!(substring(&hay, 1, 3), "bc");
    assert!(same("a", "a") && !same("a", "b"));
    assert_eq!(byte_len("é→a"), 6);
}

#[test]
fn numbers_are_written_and_read_back() {
    for n in [0, 7, 10, 99, 1000, u64::MAX] {
        assert_eq!(show(n), n.to_string());
        assert_eq!(read_leading(&format!("{n},x"), u64::MAX), Some(n));
    }
    for n in [0, -1, 42, i64::MIN, i64::MAX] {
        assert_eq!(show_signed(n), n.to_string());
    }
    assert_eq!(show_wide(u128::MAX), u128::MAX.to_string());
    assert_eq!(read_leading("", 9), None);
    assert_eq!(read_leading("x1", 9), None);
    assert_eq!(read_leading("0012", 99), Some(12));
    assert_eq!(read_leading("100", 99), None);
    assert_eq!(read_leading("18446744073709551616", u64::MAX), None);
    assert_eq!(read_leading("5", 3), None);
}

#[test]
fn texts_are_ordered_as_their_characters_are() {
    for (a, b) in [("a", "b"), ("a", "aa"), ("", "a"), ("b", "aé"), ("z", "é"), ("a", "a")] {
        assert_eq!(is_before(a, b), a < b, "{a:?} {b:?}");
        assert_eq!(is_before(b, a), b < a, "{b:?} {a:?}");
    }
}

#[test]
fn texts_are_padded_to_a_width_in_characters() {
    assert_eq!(pad("é", 3), "é  ");
    assert_eq!(pad("long", 2), "long");
    assert_eq!(align("42", 5), "   42");
    assert_eq!(align("123456", 5), "123456");
    assert_eq!(take_chars("é→a", 2), "é→");
    assert_eq!(take_chars("a", 2), "a");
}

#[test]
fn a_word_is_found_behind_a_false_start() {
    assert!(has_word("returns return", "return"));
    assert!(has_word("bail!(x)", "bail!"));
    assert!(!has_word("bail!x", "bail!"));
    assert!(has_word("a.next", "next"));
    assert!(!has_word("_next", "next"));
}
