use decoy::text::{
    append, decode, find_from, occurs_at, replace_all, slice, strip_leading, strip_trailing,
    to_chars, to_decimal, to_string, trim,
};

fn cs(s: &str) -> Vec<char> {
    s.chars().collect()
}

fn st(v: &[char]) -> String {
    v.iter().collect()
}

fn replace(s: &str, pat: &str, with: &str) -> String {
    st(&replace_all(&cs(s), &cs(pat), &cs(with)))
}

#[test]
fn chars_and_back() {
    assert_eq!(to_chars(""), Vec::<char>::new());
    assert_eq!(to_chars("a\u{fc}\u{4e16}"), vec!['a', '\u{fc}', '\u{4e16}']);
    assert_eq!(to_string(&vec![]), "");
    assert_eq!(to_string(&vec!['o', 'k', '\n']), "ok\n");
    assert_eq!(to_string(&to_chars("gr\u{fc}n \u{1f600}")), "gr\u{fc}n \u{1f600}");
}

#[test]
fn decode_is_lossy() {
    assert_eq!(decode(&b"plain".to_vec()), "plain");
    assert_eq!(decode(&vec![]), "");
    assert_eq!(decode(&vec![0xc3, 0xbc]), "\u{fc}");
    assert_eq!(decode(&vec![b'a', 0xc3]), "a\u{fffd}");
    assert_eq!(decode(&vec![0xff, 0xfe]), "\u{fffd}\u{fffd}");
}

#[test]
fn slice_of_chars() {
    let v = cs("abcdef");
    assert_eq!(st(&slice(&v, 0, 6)), "abcdef");
    assert_eq!(st(&slice(&v, 2, 4)), "cd");
    assert_eq!(st(&slice(&v, 3, 3)), "");
    assert_eq!(st(&slice(&v, 6, 6)), "");
}

#[test]
fn append_chars() {
    let mut v = cs("ab");
    append(&mut v, &cs("cd"));
    assert_eq!(st(&v), "abcd");
    append(&mut v, &cs(""));
    assert_eq!(st(&v), "abcd");
}

#[test]
fn occurs_at_index() {
    let s = cs("hello world");
    assert!(occurs_at(&s, 0, &cs("hello")));
    assert!(occurs_at(&s, 6, &cs("world")));
    assert!(!occurs_at(&s, 7, &cs("world")));
    assert!(!occurs_at(&s, 1, &cs("hello")));
    assert!(occurs_at(&s, 11, &cs("")));
    assert!(occurs_at(&s, 3, &cs("")));
    assert!(!occurs_at(&s, 11, &cs("d")));
    assert!(!occurs_at(&s, 0, &cs("hello world!")));
}

#[test]
fn replace_every_occurrence() {
    assert_eq!(replace("a-b-c", "-", "+"), "a+b+c");
    assert_eq!(replace("a-b-c", "-", ""), "abc");
    assert_eq!(replace("a-b-c", "-", "--"), "a--b--c");
    assert_eq!(replace("abc", "x", "y"), "abc");
    assert_eq!(replace("", "x", "y"), "");
    assert_eq!(replace("xx", "x", "xx"), "xxxx");
    assert_eq!(replace("abcabc", "abc", "z"), "zz");
    assert_eq!(replace("abab", "abab", "ab"), "ab");
}

#[test]
fn replace_takes_occurrences_from_the_left() {
    assert_eq!(replace("aaa", "aa", "b"), "ba");
    assert_eq!(replace("aaaa", "aa", "b"), "bb");
    assert_eq!(replace("ababa", "aba", "x"), "xba");
}

#[test]
fn replace_with_empty_pattern_changes_nothing() {
    assert_eq!(replace("abc", "", "-"), "abc");
    assert_eq!(replace("", "", "-"), "");
}

#[test]
fn replace_line_feeds() {
    assert_eq!(replace("a\nb\n", "\n", "\r\n"), "a\r\nb\r\n");
    assert_eq!(replace("\n\n", "\n", "\r\n"), "\r\n\r\n");
}

#[test]
fn trim_white_space() {
    assert_eq!(st(&trim(&cs("  a b  "))), "a b");
    assert_eq!(st(&trim(&cs("\t\r\n a\u{a0}"))), "a");
    assert_eq!(st(&trim(&cs("a"))), "a");
    assert_eq!(st(&trim(&cs(""))), "");
    assert_eq!(st(&trim(&cs(" \n\t "))), "");
    assert_eq!(st(&trim(&cs("\u{3000}x\u{2028}"))), "x");
    assert_eq!(st(&trim(&cs("_ x _"))), "_ x _");
}

#[test]
fn decimal_digits() {
    assert_eq!(st(&to_decimal(0)), "0");
    assert_eq!(st(&to_decimal(7)), "7");
    assert_eq!(st(&to_decimal(10)), "10");
    assert_eq!(st(&to_decimal(99)), "99");
    assert_eq!(st(&to_decimal(100)), "100");
    assert_eq!(st(&to_decimal(1234567890)), "1234567890");
    assert_eq!(st(&to_decimal(usize::MAX)), usize::MAX.to_string());
}

#[test]
fn find_first_from() {
    let s = cs("a b c");
    assert_eq!(find_from(&s, 0, ' '), 1);
    assert_eq!(find_from(&s, 1, ' '), 1);
    assert_eq!(find_from(&s, 2, ' '), 3);
    assert_eq!(find_from(&s, 4, ' '), 5);
    assert_eq!(find_from(&s, 5, ' '), 5);
    assert_eq!(find_from(&s, 0, 'x'), 5);
    assert_eq!(find_from(&cs(""), 0, 'x'), 0);
}

#[test]
fn strip_leading_characters() {
    assert_eq!(st(&strip_leading(&cs("///a/b"), '/')), "a/b");
    assert_eq!(st(&strip_leading(&cs("a/b"), '/')), "a/b");
    assert_eq!(st(&strip_leading(&cs("//"), '/')), "");
    assert_eq!(st(&strip_leading(&cs(""), '/')), "");
}

#[test]
fn strip_trailing_copies() {
    assert_eq!(st(&strip_trailing(&cs("a.yml"), &cs(".yml"))), "a");
    assert_eq!(st(&strip_trailing(&cs("a.yml.yml"), &cs(".yml"))), "a");
    assert_eq!(st(&strip_trailing(&cs("a.yml.txt"), &cs(".yml"))), "a.yml.txt");
    assert_eq!(st(&strip_trailing(&cs(".yml"), &cs(".yml"))), "");
    assert_eq!(st(&strip_trailing(&cs("yml"), &cs(".yml"))), "yml");
    assert_eq!(st(&strip_trailing(&cs("abc"), &cs(""))), "abc");
    assert_eq!(st(&strip_trailing(&cs("aaa"), &cs("aa"))), "a");
    assert_eq!(st(&strip_trailing(&cs(""), &cs("x"))), "");
}
