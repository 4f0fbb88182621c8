use starknet_event_query::config::{Cli, Transport};
use starknet_event_query::decimal::{decimal_string, digits_only, parse_u64, push_decimal};
use starknet_event_query::lists::{
    clone_texts, contains_text, contains_texts, count_text, distinct_texts, text_eq, texts_eq,
};
use starknet_event_query::order::{sort_texts, text_le};
use starknet_event_query::text::{chars_of, find_char, rfind_char, string_of};

fn texts(items: &[&str]) -> Vec<String> {
    items.iter().map(|s| s.to_string()).collect()
}

fn chars(s: &str) -> Vec<char> {
    s.chars().collect()
}

const SAMPLES: [&str; 16] = [
    "", "0", "0x", "0x1", "0x10", "0x2", "0xA", "0xa", "0xa0", "0xb", "a", "ab", "b", "B", "\u{e9}", "\u{1F600}",
];

#[test]
fn numerals() {
    assert_eq!(decimal_string(0), "0");
    assert_eq!(decimal_string(7), "7");
    assert_eq!(decimal_string(10), "10");
    assert_eq!(decimal_string(1024), "1024");
    assert_eq!(decimal_string(u64::MAX), "18446744073709551615");
    for n in [1u64, 9, 99, 100, 101, 12345678901234567890] {
        assert_eq!(decimal_string(n), n.to_string());
    }
    let mut out = "n=".to_string();
    push_decimal(&mut out, 42);
    assert_eq!(out, "n=42");
}

#[test]
fn parses_numerals() {
    assert_eq!(parse_u64(&chars("0"), 0, 1), Some(0));
    assert_eq!(parse_u64(&chars("1024"), 0, 4), Some(1024));
    assert_eq!(parse_u64(&chars("x1024y"), 1, 5), Some(1024));
    assert_eq!(parse_u64(&chars("x1024y"), 1, 3), Some(10));
    assert_eq!(parse_u64(&chars("000"), 0, 3), Some(0));
    assert_eq!(parse_u64(&chars("18446744073709551615"), 0, 20), Some(u64::MAX));
    assert_eq!(parse_u64(&chars("18446744073709551616"), 0, 20), None);
    assert_eq!(parse_u64(&chars("18446744073709551620"), 0, 20), None);
    assert_eq!(parse_u64(&chars("28446744073709551615"), 0, 20), None);
    assert_eq!(parse_u64(&chars("184467440737095516150"), 0, 21), None);
    assert_eq!(parse_u64(&chars("12"), 1, 1), None);
    assert_eq!(parse_u64(&chars(""), 0, 0), None);
    assert_eq!(parse_u64(&chars("+1"), 0, 2), None);
    assert_eq!(parse_u64(&chars("-1"), 0, 2), None);
    assert_eq!(parse_u64(&chars("1a"), 0, 2), None);
    assert_eq!(parse_u64(&chars(" 1"), 0, 2), None);
    assert_eq!(parse_u64(&chars("\u{661}"), 0, 1), None);
    for n in [0u64, 5, 10, 999, u64::MAX - 1, u64::MAX] {
        let text = chars(&n.to_string());
        assert_eq!(parse_u64(&text, 0, text.len()), Some(n));
    }
}

#[test]
fn tells_digits() {
    assert!(digits_only(&chars("0123456789"), 0, 10));
    assert!(digits_only(&chars("a1b"), 1, 2));
    assert!(digits_only(&chars("abc"), 1, 1));
    assert!(!digits_only(&chars("12/"), 0, 3));
    assert!(!digits_only(&chars("12:"), 0, 3));
    assert!(!digits_only(&chars("a1b"), 0, 2));
}

#[test]
fn characters_and_strings() {
    assert_eq!(chars_of("a\u{e9}\u{1F600}z"), vec!['a', '\u{e9}', '\u{1F600}', 'z']);
    assert_eq!(chars_of(""), Vec::<char>::new());
    let cs = chars("a\u{e9}\u{1F600}z");
    assert_eq!(string_of(&cs, 0, 4), "a\u{e9}\u{1F600}z");
    assert_eq!(string_of(&cs, 1, 3), "\u{e9}\u{1F600}");
    assert_eq!(string_of(&cs, 2, 2), "");
}

#[test]
fn finds_characters() {
    let cs = chars("a+b+c");
    assert_eq!(find_char(&cs, 5, '+'), 1);
    assert_eq!(find_char(&cs, 1, '+'), 1);
    assert_eq!(find_char(&cs, 0, '+'), 0);
    assert_eq!(find_char(&cs, 5, 'c'), 4);
    assert_eq!(find_char(&cs, 4, 'c'), 4);
    assert_eq!(find_char(&cs, 5, 'x'), 5);
    assert_eq!(find_char(&cs, 5, 'a'), 0);
    assert_eq!(rfind_char(&cs, 0, 5, '+'), Some(3));
    assert_eq!(rfind_char(&cs, 3, 5, '+'), Some(3));
    assert_eq!(rfind_char(&cs, 4, 5, '+'), None);
    assert_eq!(rfind_char(&cs, 0, 3, '+'), Some(1));
    assert_eq!(rfind_char(&cs, 0, 1, '+'), None);
    assert_eq!(rfind_char(&cs, 2, 3, '+'), None);
    assert_eq!(rfind_char(&cs, 0, 5, 'a'), Some(0));
    assert_eq!(rfind_char(&cs, 1, 5, 'a'), None);
    assert_eq!(rfind_char(&cs, 5, 5, 'c'), None);
    assert_eq!(rfind_char(&cs, 0, 4, 'c'), None);
    assert_eq!(rfind_char(&chars(""), 0, 0, 'c'), None);
}

#[test]
fn order_of_strings_is_that_of_std() {
    for a in SAMPLES {
        for b in SAMPLES {
            assert_eq!(text_le(a, b), a <= b, "{:?} {:?}", a, b);
            assert_eq!(text_eq(a, b), a == b, "{:?} {:?}", a, b);
        }
    }
}

#[test]
fn sorts_as_std_does() {
    let mut reversed: Vec<String> = texts(&SAMPLES);
    reversed.reverse();
    let mixed = texts(&["b", "a", "b", "", "ab", "a", "0x2", "0x10", "b"]);
    for list in [texts(&SAMPLES), reversed, mixed, texts(&[]), texts(&["x"])] {
        let mut expected = list.clone();
        expected.sort();
        assert_eq!(sort_texts(&list), expected);
    }
}

#[test]
fn membership_and_counting() {
    let list = texts(&["a", "b", "a", "", "c", "a"]);
    assert!(contains_text(&list, "a"));
    assert!(contains_text(&list, ""));
    assert!(contains_text(&list, "c"));
    assert!(!contains_text(&list, "d"));
    assert!(!contains_text(&texts(&[]), ""));
    assert_eq!(count_text(&list, "a"), 3);
    assert_eq!(count_text(&list, "b"), 1);
    assert_eq!(count_text(&list, ""), 1);
    assert_eq!(count_text(&list, "d"), 0);
    assert_eq!(count_text(&texts(&[]), "a"), 0);
}

#[test]
fn removes_repetitions_keeping_first_occurrences() {
    assert_eq!(distinct_texts(&texts(&["b", "a", "b", "c", "a", "b"])), texts(&["b", "a", "c"]));
    assert_eq!(distinct_texts(&texts(&[])), texts(&[]));
    assert_eq!(distinct_texts(&texts(&["x", "x", "x"])), texts(&["x"]));
}

#[test]
fn lists_of_strings() {
    let list = texts(&["a", "", "b"]);
    assert_eq!(clone_texts(&list), list);
    assert!(texts_eq(&list, &texts(&["a", "", "b"])));
    assert!(!texts_eq(&list, &texts(&["a", "", "c"])));
    assert!(!texts_eq(&list, &texts(&["a", ""])));
    assert!(!texts_eq(&list, &texts(&["", "a", "b"])));
    assert!(texts_eq(&texts(&[]), &texts(&[])));
    let lists = vec![texts(&["a"]), texts(&[]), texts(&["a", "b"])];
    assert!(contains_texts(&lists, &texts(&["a", "b"])));
    assert!(contains_texts(&lists, &texts(&[])));
    assert!(!contains_texts(&lists, &texts(&["b", "a"])));
    assert!(!contains_texts(&vec![], &texts(&[])));
}

#[test]
fn default_options() {
    let cli = Cli::default();
    assert_eq!(
        cli,
        Cli {
            pathfinder_rpc_url: "http://127.0.0.1:9545".to_string(),
            pathfinder_ws_url: "ws://localhost:9545/ws/rpc/v0_8".to_string(),
            fixture_dir: "ground".to_string(),
            subscribe: false,
        }
    );
    assert_eq!(cli.transport(), Transport::Paged);
    assert_eq!(cli.server_url(), "http://127.0.0.1:9545");
    assert_eq!(cli.fixture_mask(), "ground/*.jsonl");
}

#[test]
fn subscribe_option_picks_the_stream() {
    let cli = Cli { subscribe: true, ..Cli::default() };
    assert_eq!(cli.transport(), Transport::Streaming);
    assert_eq!(cli.server_url(), "ws://localhost:9545/ws/rpc/v0_8");
}

#[test]
fn fixture_mask_is_the_joined_path() {
    for dir in ["ground", "ground/", "/", "", "a/b", "a/b/", "."] {
        let cli = Cli { fixture_dir: dir.to_string(), ..Cli::default() };
        let joined = std::path::Path::new(dir).join("*.jsonl");
        assert_eq!(cli.fixture_mask(), joined.to_str().unwrap(), "{:?}", dir);
    }
}
