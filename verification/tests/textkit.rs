use witgenstein::textkit::{
    char_count, contains, convert_case, count, join, pad, replace_all, reverse, split,
    substring, title_case, trim, truncate, CaseStyle, PadConfig, PadSide, StringBuilder,
    TextError,
};

#[test]
fn test_reverse() {
    assert_eq!(reverse("hello".into()), "olleh");
}

#[test]
fn test_reverse_empty() {
    assert_eq!(reverse(String::new()), "");
}

#[test]
fn test_reverse_unicode() {
    assert_eq!(reverse("café".into()), "éfac");
}

#[test]
fn test_convert_case_upper() {
    assert_eq!(convert_case("hello".into(), CaseStyle::Upper), "HELLO");
}

#[test]
fn test_convert_case_lower() {
    assert_eq!(convert_case("HELLO".into(), CaseStyle::Lower), "hello");
}

#[test]
fn test_convert_case_title() {
    assert_eq!(
        convert_case("hello world".into(), CaseStyle::Title),
        "Hello World"
    );
}

#[test]
fn title_case_lowers_rest_and_keeps_whitespace() {
    assert_eq!(title_case("hELLO\twORLD  x"), "Hello\tWorld  X");
    assert_eq!(title_case("ßa"), "SSa");
}

#[test]
fn test_truncate_short() {
    assert_eq!(truncate("hi".into(), 10, "...".into()), "hi");
}

#[test]
fn test_truncate_long() {
    assert_eq!(truncate("hello world".into(), 5, "...".into()), "hello...");
}

#[test]
fn truncate_exact_length_is_unchanged() {
    assert_eq!(truncate("hello".into(), 5, "...".into()), "hello");
    assert_eq!(truncate("héllo".into(), 2, "".into()), "hé");
}

#[test]
fn test_pad_left() {
    let cfg = PadConfig {
        width: 8,
        fill: '0',
        side: PadSide::Left,
    };
    assert_eq!(pad("42".into(), cfg), "00000042");
}

#[test]
fn test_pad_right() {
    let cfg = PadConfig {
        width: 6,
        fill: '.',
        side: PadSide::Right,
    };
    assert_eq!(pad("hi".into(), cfg), "hi....");
}

#[test]
fn test_pad_both() {
    let cfg = PadConfig {
        width: 7,
        fill: '-',
        side: PadSide::Both,
    };
    assert_eq!(pad("hi".into(), cfg), "--hi---");
}

#[test]
fn pad_wider_input_is_unchanged() {
    let cfg = PadConfig { width: 2, fill: '*', side: PadSide::Both };
    assert_eq!(pad("long".into(), cfg), "long");
}

#[test]
fn test_split() {
    let r = split("a,b,c".into(), ",".into());
    assert_eq!(r.parts, vec!["a", "b", "c"]);
    assert_eq!(r.count, 3);
}

#[test]
fn split_edge_cases() {
    let r = split("a,,b,".into(), ",".into());
    assert_eq!(r.parts, vec!["a", "", "b", ""]);
    let r = split("abc".into(), "".into());
    assert_eq!(r.parts, vec!["", "a", "b", "c", ""]);
    assert_eq!(r.count, 5);
    let r = split("aaa".into(), "aa".into());
    assert_eq!(r.parts, vec!["", "a"]);
    let r = split("".into(), ",".into());
    assert_eq!(r.parts, vec![""]);
}

#[test]
fn test_join() {
    let parts = vec!["a".into(), "b".into(), "c".into()];
    assert_eq!(join(parts, ", ".into()), "a, b, c");
}

#[test]
fn join_empty_and_single() {
    assert_eq!(join(vec![], "-".into()), "");
    assert_eq!(join(vec!["x".into()], "-".into()), "x");
}

#[test]
fn split_then_join_gives_back_input() {
    let r = split("a::b::::c".into(), "::".into());
    assert_eq!(join(r.parts, "::".into()), "a::b::::c");
}

#[test]
fn test_contains_true() {
    assert!(contains("hello world".into(), "world".into()));
}

#[test]
fn test_contains_false() {
    assert!(!contains("hello".into(), "xyz".into()));
}

#[test]
fn contains_empty_pattern() {
    assert!(contains("".into(), "".into()));
}

#[test]
fn test_replace_all() {
    assert_eq!(replace_all("aabaa".into(), "a".into(), "x".into()), "xxbxx");
}

#[test]
fn replace_all_edge_cases() {
    assert_eq!(replace_all("abc".into(), "".into(), "-".into()), "-a-b-c-");
    assert_eq!(replace_all("aaa".into(), "aa".into(), "b".into()), "ba");
    assert_eq!(replace_all("abc".into(), "z".into(), "y".into()), "abc");
}

#[test]
fn test_substring_ok() {
    assert_eq!(substring("hello".into(), 1, 4), Ok("ell".into()));
}

#[test]
fn test_substring_err() {
    assert!(substring("hi".into(), 0, 10).is_err());
}

#[test]
fn substring_reversed_indices_is_error() {
    assert_eq!(substring("hello".into(), 3, 1), Err(TextError::InvalidIndex));
    assert_eq!(substring("héllo".into(), 1, 2), Ok("é".into()));
}

#[test]
fn test_count_pattern() {
    assert_eq!(count("banana".into(), "an".into()), 2);
}

#[test]
fn test_count_empty_pattern() {
    assert_eq!(count("hello".into(), String::new()), 0);
}

#[test]
fn count_is_non_overlapping() {
    assert_eq!(count("aaaa".into(), "aa".into()), 2);
}

#[test]
fn test_trim() {
    assert_eq!(trim("  hello  ".into()), "hello");
}

#[test]
fn trim_all_whitespace_and_unicode_spaces() {
    assert_eq!(trim(" \t\n ".into()), "");
    assert_eq!(trim("\u{3000}x y\u{a0}".into()), "x y");
}

#[test]
fn test_char_count() {
    assert_eq!(char_count("café".into()), 4);
}

#[test]
fn test_string_builder() {
    let mut sb = StringBuilder::new();
    sb.append("hello".into());
    sb.append(" ".into());
    sb.append("world".into());
    assert_eq!(sb.len(), 11);
    assert_eq!(sb.build(), "hello world");
}

#[test]
fn test_string_builder_insert() {
    let mut sb = StringBuilder::new();
    sb.append("helloworld".into());
    sb.insert(5, " ".into()).unwrap();
    assert_eq!(sb.build(), "hello world");
}

#[test]
fn test_string_builder_insert_invalid() {
    let mut sb = StringBuilder::new();
    sb.append("hi".into());
    assert!(sb.insert(100, "x".into()).is_err());
}

#[test]
fn string_builder_insert_at_end_and_error_keeps_text() {
    let mut sb = StringBuilder::new();
    sb.append("hé".into());
    sb.insert(2, "!".into()).unwrap();
    assert_eq!(sb.build(), "hé!");
    assert_eq!(sb.insert(4, "x".into()), Err(TextError::InvalidIndex));
    assert_eq!(sb.build(), "hé!");
    assert!(!sb.is_empty());
}

#[test]
fn test_string_builder_clear() {
    let mut sb = StringBuilder::new();
    sb.append("stuff".into());
    sb.clear();
    assert_eq!(sb.len(), 0);
    assert_eq!(sb.build(), "");
}

#[test]
fn test_string_builder_append_line() {
    let mut sb = StringBuilder::new();
    sb.append_line("line1".into());
    sb.append_line("line2".into());
    assert_eq!(sb.build(), "line1\nline2\n");
}

#[test]
fn split_then_join_gives_the_input_back() {
    for (s, d) in [("a,b,,c", ","), ("xxabxxab", "xx"), ("abc", ""), ("", ";"), ("no-delim", "|")] {
        let parts = split(s.to_string(), d.to_string()).parts;
        assert_eq!(join(parts, d.to_string()), s);
    }
}

#[test]
fn replace_is_split_then_join() {
    for (s, p, r) in [("a-b-c", "-", "+"), ("aaa", "aa", "b"), ("ab", "", "."), ("abc", "abc", "")] {
        let parts = split(s.to_string(), p.to_string()).parts;
        assert_eq!(replace_all(s.to_string(), p.to_string(), r.to_string()), join(parts, r.to_string()));
    }
    assert_eq!(replace_all("ab".to_string(), "".to_string(), ".".to_string()), ".a.b.");
    assert_eq!(replace_all("a-b".to_string(), "-".to_string(), "-".to_string()), "a-b");
}

#[test]
fn count_is_one_less_than_pieces() {
    for (s, p) in [("a,b,,c", ","), ("aaaa", "aa"), ("", "x"), ("xyz", "q")] {
        let pieces = split(s.to_string(), p.to_string()).parts.len() as u32;
        assert_eq!(count(s.to_string(), p.to_string()) + 1, pieces);
    }
}

#[test]
fn reversing_twice_gives_the_input_back() {
    for s in ["", "abc", "héllo wörld"] {
        assert_eq!(reverse(reverse(s.to_string())), s);
    }
}
