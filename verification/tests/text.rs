use crust_gather::text::{lines, replace};

const SAMPLES: &[&str] = &[
    "", "a", "aa", "aaa", "abc", "abab", "aab", "ba", "\n", "\r\n", "a\r", "a\r\nb", "x\n\ny\n",
    "é\u{1F600}é", "line\rmid\nend", "\n\n", "\r", "\r\r\n",
];

#[test]
fn replace_agrees_with_str_replace() {
    for s in SAMPLES {
        for p in SAMPLES {
            for w in ["", "xxx", "Z"] {
                assert_eq!(replace(s, p, w), s.replace(p, w), "{:?} {:?} {:?}", s, p, w);
            }
        }
    }
}

#[test]
fn replace_takes_leftmost_matches_without_overlap() {
    assert_eq!(replace("aaa", "aa", "x"), "xa");
    assert_eq!(replace("aaaa", "aa", "x"), "xx");
}

#[test]
fn replace_empty_pattern_matches_between_characters() {
    assert_eq!(replace("abc", "", "-"), "-a-b-c-");
    assert_eq!(replace("", "", "-"), "-");
}

#[test]
fn replace_absent_pattern_is_identity() {
    assert_eq!(replace("hello", "xyz", "q"), "hello");
}

#[test]
fn lines_agree_with_str_lines() {
    for s in SAMPLES {
        let expected: Vec<String> = s.lines().map(|l| l.to_string()).collect();
        assert_eq!(lines(s), expected, "{:?}", s);
    }
}

#[test]
fn final_line_ending_is_optional() {
    assert_eq!(lines("a\nb"), lines("a\nb\n"));
    assert_eq!(lines("a\nb"), lines("a\nb\r\n"));
    assert_eq!(lines("a\nb"), vec!["a", "b"]);
}

#[test]
fn lone_carriage_return_stays_in_line() {
    assert_eq!(lines("a\rb\r"), vec!["a\rb\r"]);
}
