use oss_cli::text::{chars_of, decimal_text, find_slash, lex_less, starts_with, text_before};

fn chars(s: &str) -> Vec<char> {
    s.chars().collect()
}

#[test]
fn chars_are_taken_one_by_one() {
    assert_eq!(chars_of("a/目"), vec!['a', '/', '目']);
    assert_eq!(chars_of(""), Vec::<char>::new());
}

#[test]
fn first_slash_is_found() {
    assert_eq!(find_slash(&chars("ab/c/d")), 2);
    assert_eq!(find_slash(&chars("/")), 0);
    assert_eq!(find_slash(&chars("abc")), 3);
    assert_eq!(find_slash(&chars("")), 0);
}

#[test]
fn prefix_is_recognised() {
    assert!(starts_with(&chars("a/b"), &chars("a/")));
    assert!(starts_with(&chars("a/b"), &chars("")));
    assert!(starts_with(&chars("a/b"), &chars("a/b")));
    assert!(!starts_with(&chars("a/b"), &chars("a/b/")));
    assert!(!starts_with(&chars("a/b"), &chars("b")));
}

#[test]
fn dictionary_order_is_by_first_difference() {
    assert!(text_before("", "a"));
    assert!(text_before("a", "ab"));
    assert!(text_before("ab", "b"));
    assert!(text_before("B", "a"));
    assert!(text_before("z", "目"));
    assert!(!text_before("a", "a"));
    assert!(!text_before("b", "ab"));
    assert!(!text_before("a", ""));
    assert!(lex_less(&chars("a1"), &chars("a2")));
    assert!(!lex_less(&chars("a2"), &chars("a1")));
}

#[test]
fn dictionary_order_agrees_with_the_order_of_strings() {
    let words = ["", "a", "A", "ab", "b", "a/b", "a b", "目录", "z", "zz", "é"];
    for x in words {
        for y in words {
            assert_eq!(text_before(x, y), x < y);
        }
    }
}

#[test]
fn numbers_are_written_in_decimal() {
    assert_eq!(decimal_text(0), "0");
    assert_eq!(decimal_text(7), "7");
    assert_eq!(decimal_text(10), "10");
    assert_eq!(decimal_text(1234567890), "1234567890");
    assert_eq!(decimal_text(u64::MAX), "18446744073709551615");
}
