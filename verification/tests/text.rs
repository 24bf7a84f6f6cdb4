use onomedit::text::{from_chars, replace_all, replace_chars, str_equal, to_chars};

const CASES: [(&str, &str, &str); 14] = [
    ("hello world", "o", "0"),
    ("aaaa", "aa", "b"),
    ("aaa", "aa", "b"),
    ("abab", "ab", "ba"),
    ("abc", "", "-"),
    ("", "", "-"),
    ("", "x", "y"),
    ("xyz", "xyz", ""),
    ("no match here", "zz", "yy"),
    ("生成: 补全 生成", "生成", "Generate"),
    ("@@TWO_SPACES@@x@@TWO_SPACES@@", "@@TWO_SPACES@@", "  "),
    ("ab", "abc", "q"),
    ("mississippi", "issi", "I"),
    ("héllo wörld", "ö", "oe"),
];

#[test]
fn replace_all_agrees_with_std() {
    for (s, from, to) in CASES {
        assert_eq!(replace_all(s, from, to), s.replace(from, to), "{s:?} {from:?} {to:?}");
    }
}

#[test]
fn replace_all_exact_values() {
    assert_eq!(replace_all("aaaa", "aa", "b"), "bb");
    assert_eq!(replace_all("aaa", "aa", "b"), "ba");
    assert_eq!(replace_all("abc", "", "-"), "-a-b-c-");
    assert_eq!(replace_all("", "", "-"), "-");
    assert_eq!(replace_all("mississippi", "issi", "I"), "mIssippi");
}

#[test]
fn replace_all_changes_what_it_is_given() {
    let r = replace_all("a-b-c", "-", "+");
    assert_ne!(r, "a-b-c");
    assert_eq!(r, "a+b+c");
}

#[test]
fn chars_round_trip() {
    for s in ["", "abc", "生成 shell 补全脚本", "tab\tand\nnewline"] {
        let v = to_chars(s);
        assert_eq!(v, s.chars().collect::<Vec<char>>());
        assert_eq!(from_chars(&v), s);
    }
}

#[test]
fn replace_chars_on_vectors() {
    let s = to_chars("one two one");
    let r = replace_chars(&s, &to_chars("one"), &to_chars("1"));
    assert_eq!(from_chars(&r), "1 two 1");
}

#[test]
fn str_equal_compares_characters() {
    assert!(str_equal("bash", "bash"));
    assert!(str_equal("", ""));
    assert!(!str_equal("bash", "bas"));
    assert!(!str_equal("bash", "Bash"));
    assert!(!str_equal("", "x"));
    assert!(str_equal("补全", "补全"));
}

#[test]
fn replacing_adds_no_other_character() {
    let r = replace_all("a-b-c", "-", "++");
    assert!(!r.contains('\r') && !r.contains('-'));
    assert_eq!(r, "a++b++c");
}

#[test]
fn replacing_keeps_text_no_match_overlaps() {
    let r = replace_all("help 生成 history", "生成", "Generate");
    assert!(r.contains("help") && r.contains("history"));
    assert_eq!(r, "help Generate history");
}
