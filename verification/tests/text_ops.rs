use haadi::order::{insert_sorted, precedes_str, push_unique, sort_texts};
use haadi::text::{
    clone_texts, contains_char, contains_str, ends_with, equal, equal_str, find,
    find_char, from_chars, is_whitespace, precedes, replace, rfind_char, slice, split,
    split_once, split_once_char, starts_with, strip_prefix, take_after_last_char,
    take_before_char, to_ascii_lowercase, to_chars, to_decimal, to_forward_slashes, trim,
    trim_brackets, trim_matches, trim_start_matches,
};

fn s(v: &Vec<char>) -> String {
    from_chars(v)
}

fn c(text: &str) -> Vec<char> {
    to_chars(text)
}

#[test]
fn chars_round_trip() {
    assert_eq!(c("héllo"), vec!['h', 'é', 'l', 'l', 'o']);
    assert_eq!(s(&c("héllo")), "héllo");
    assert_eq!(s(&c("")), "");
}

#[test]
fn trim_removes_surrounding_white_space() {
    assert_eq!(s(&trim(&c("  \t import x \n"))), "import x");
    assert_eq!(s(&trim(&c("\u{a0}x\u{3000}"))), "x");
    assert_eq!(s(&trim(&c("   "))), "");
    assert_eq!(s(&trim(&c("a b"))), "a b");
}

#[test]
fn whitespace_is_the_unicode_class() {
    assert!(is_whitespace(' '));
    assert!(is_whitespace('\n'));
    assert!(is_whitespace('\u{2028}'));
    assert!(!is_whitespace('a'));
    assert!(!is_whitespace('\u{200b}'));
    for code in 0u32..0x3100 {
        if let Some(ch) = char::from_u32(code) {
            assert_eq!(is_whitespace(ch), ch.is_whitespace(), "{code:#x}");
        }
    }
}

#[test]
fn equality_and_slices() {
    assert!(equal(&c("abc"), &c("abc")));
    assert!(!equal(&c("abc"), &c("abd")));
    assert!(!equal(&c("abc"), &c("ab")));
    assert!(equal_str(&c("abc"), "abc"));
    assert_eq!(s(&slice(&c("hello"), 1, 3)), "el");
    assert_eq!(s(&haadi::text::concat(&c("ab"), &c("cd"))), "abcd");
    assert_eq!(clone_texts(&vec!["a".to_string(), "b".to_string()]), vec!["a", "b"]);
}

#[test]
fn prefixes_and_suffixes() {
    assert!(starts_with(&c("./a"), "./"));
    assert!(!starts_with(&c("."), "./"));
    assert!(starts_with(&c("abc"), ""));
    assert!(ends_with(&c("index.d.ts"), ".d.ts"));
    assert!(!ends_with(&c("ts"), ".d.ts"));
    assert_eq!(strip_prefix(&c("src/a"), "src/").map(|v| s(&v)), Some("a".to_string()));
    assert_eq!(strip_prefix(&c("lib/a"), "src/"), None);
}

#[test]
fn finding_texts_and_characters() {
    assert_eq!(find(&c("a as b as c"), &c(" as "), 0), Some(1));
    assert_eq!(find(&c("a as b as c"), &c(" as "), 2), Some(6));
    assert_eq!(find(&c("abc"), &c("x"), 0), None);
    assert_eq!(find(&c("abc"), &c(""), 3), Some(3));
    assert_eq!(find(&c("abc"), &c(""), 4), None);
    assert_eq!(find_char(&c("a?b?c"), '?', 0), Some(1));
    assert_eq!(find_char(&c("a?b?c"), '?', 2), Some(3));
    assert_eq!(rfind_char(&c("a.b.c"), '.'), Some(3));
    assert_eq!(rfind_char(&c("abc"), '.'), None);
    assert!(contains_str(&c("x.test.ts"), ".test."));
    assert!(!contains_str(&c("xtest.ts"), ".test."));
    assert!(contains_char(&c("a*b"), '*'));
    assert!(!contains_char(&c("ab"), '*'));
}

#[test]
fn cutting_and_splitting() {
    assert_eq!(s(&take_before_char(&c("a?b?c"), '?')), "a");
    assert_eq!(s(&take_before_char(&c("abc"), '?')), "abc");
    assert_eq!(s(&take_after_last_char(&c("a/b/c"), '/')), "c");
    assert_eq!(s(&take_after_last_char(&c("abc"), '/')), "abc");
    assert_eq!(s(&take_after_last_char(&c("a/"), '/')), "");
    let (l, r) = split_once_char(&c("a:b:c"), ':').unwrap();
    assert_eq!((s(&l), s(&r)), ("a".to_string(), "b:c".to_string()));
    assert!(split_once_char(&c("abc"), ':').is_none());
    let (l, r) = split_once(&c("x as y"), " as ").unwrap();
    assert_eq!((s(&l), s(&r)), ("x".to_string(), "y".to_string()));
    let parts: Vec<String> = split(&c("a,,b,"), ',').iter().map(s).collect();
    assert_eq!(parts, vec!["a", "", "b", ""]);
    let parts: Vec<String> = split(&c(""), ',').iter().map(s).collect();
    assert_eq!(parts, vec![""]);
    let std_parts: Vec<&str> = "a,,b,".split(',').collect();
    assert_eq!(std_parts, vec!["a", "", "b", ""]);
}

#[test]
fn replacing_and_trimming_runs() {
    assert_eq!(s(&replace(&c("a*b*"), '*', &c("xy"))), "axybxy");
    assert_eq!(s(&replace(&c("ab"), '*', &c("xy"))), "ab");
    assert_eq!(s(&to_forward_slashes(&c("a\\b\\c"))), "a/b/c");
    assert_eq!(s(&trim_start_matches(&c("././a/./b"), "./")), "a/./b");
    assert_eq!(s(&trim_start_matches(&c("type type x"), "type ")), "x");
    assert_eq!(s(&trim_matches(&c("//a/b//"), '/')), "a/b");
    assert_eq!(s(&trim_matches(&c("///"), '/')), "");
    assert_eq!(s(&trim_brackets(&c("{{ a }}"), '{', '}')), " a ");
    assert_eq!(s(&trim_brackets(&c("}"), '{', '}')), "");
}

#[test]
fn lower_case_is_ascii_only() {
    assert_eq!(s(&to_ascii_lowercase(&c("Vite.CONFIG.Ts"))), "vite.config.ts");
    assert_eq!(s(&to_ascii_lowercase(&c("ÀB"))), "Àb");
}

#[test]
fn order_is_that_of_strings() {
    assert!(precedes(&c("a"), &c("b")));
    assert!(precedes(&c("a"), &c("ab")));
    assert!(!precedes(&c("ab"), &c("a")));
    assert!(!precedes(&c("a"), &c("a")));
    assert!(precedes(&c(""), &c("a")));
    assert!(precedes(&c("a-b"), &c("a/b")));
    assert!(precedes_str("Z", "a"));
    let words = ["b", "", "a/b", "a-b", "é", "z", "ab", "a"];
    for x in words {
        for y in words {
            assert_eq!(precedes_str(x, y), x < y, "{x} {y}");
        }
    }
}

#[test]
fn sorted_lists_hold_each_text_once() {
    let mut list: Vec<String> = Vec::new();
    for word in ["m", "b", "z", "b", "a", "m"] {
        insert_sorted(&mut list, word.to_string());
    }
    assert_eq!(list, vec!["a", "b", "m", "z"]);
    let sorted = sort_texts(&vec!["src/b.ts".to_string(), "src/a.ts".to_string(), "src/b.ts".to_string()]);
    assert_eq!(sorted, vec!["src/a.ts", "src/b.ts"]);
    let mut seen: Vec<String> = Vec::new();
    for word in ["m", "b", "m", "a"] {
        push_unique(&mut seen, word.to_string());
    }
    assert_eq!(seen, vec!["m", "b", "a"]);
}

#[test]
fn decimal_digits() {
    assert_eq!(s(&to_decimal(0)), "0");
    assert_eq!(s(&to_decimal(7)), "7");
    assert_eq!(s(&to_decimal(10)), "10");
    assert_eq!(s(&to_decimal(1234567890)), "1234567890");
    assert_eq!(s(&to_decimal(usize::MAX)), usize::MAX.to_string());
}
