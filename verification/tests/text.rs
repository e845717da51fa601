use nao_me_prenda_janja::text::{
    any_line_is, contains, distinct, ends_with, head, is_white, joined, lists, replace_all,
    replace_first, same_text, starts_with, strip_leading, trim,
};

const SAMPLES: [&str; 10] =
    ["", "a", " a ", "\t\u{3000}x y\u{85}\n", "aaa", "abcabc", "\u{e9}\u{1f600}", "a\nb", "::", "  "];

#[test]
fn white_space_is_what_std_takes_it_for() {
    for u in 0..=0x10ffffu32 {
        if let Some(c) = char::from_u32(u) {
            assert_eq!(is_white(c), c.is_whitespace(), "{u:#x}");
        }
    }
}

#[test]
fn trimming_agrees_with_std() {
    for s in SAMPLES {
        assert_eq!(trim(s), s.trim());
    }
}

#[test]
fn searching_agrees_with_std() {
    for s in SAMPLES {
        for pat in SAMPLES {
            assert_eq!(contains(s, pat), s.contains(pat), "{s:?} {pat:?}");
            assert_eq!(starts_with(s, pat), s.starts_with(pat), "{s:?} {pat:?}");
            assert_eq!(ends_with(s, pat), s.ends_with(pat), "{s:?} {pat:?}");
            assert_eq!(same_text(s, pat), s == pat, "{s:?} {pat:?}");
            assert_eq!(joined(s, pat), format!("{s}{pat}"));
        }
    }
}

#[test]
fn replacing_agrees_with_std() {
    for s in ["", "a", "aaa", "aaaa", "banana", "xaay", "no match"] {
        for pat in ["a", "aa", "an", "ana", "match"] {
            for with in ["", "aa", "<>"] {
                assert_eq!(replace_all(s, pat, with), s.replace(pat, with), "{s:?} {pat:?}");
                assert_eq!(replace_first(s, pat, with), s.replacen(pat, with, 1), "{s:?} {pat:?}");
            }
        }
    }
    assert_eq!(replace_first("ab", "", "x"), "ab".replacen("", "x", 1));
}

#[test]
fn lines_are_compared_trimmed() {
    assert!(any_line_is("v=0\r\na=mid:0\r\n", "a=mid:0"));
    assert!(any_line_is("  a=mid:1  ", "a=mid:1"));
    assert!(any_line_is("x\na=mid:2", "a=mid:2"));
    assert!(!any_line_is("a=mid:10\n", "a=mid:1"));
    assert!(!any_line_is("xa=mid:1\n", "a=mid:1"));
    assert!(!any_line_is("", "a=mid:1"));
}

#[test]
fn head_stops_at_the_separator() {
    assert_eq!(head("share:v", ':'), "share");
    assert_eq!(head("share", ':'), "share");
    assert_eq!(head(":v", ':'), "");
    assert_eq!(head("a:b:c", ':'), "a");
}

#[test]
fn leading_characters_are_stripped() {
    assert_eq!(strip_leading("///a/b/", '/'), "a/b/");
    assert_eq!(strip_leading("a", '/'), "a");
    assert_eq!(strip_leading("//", '/'), "");
}

#[test]
fn distinct_keeps_the_first_of_each() {
    let list: Vec<String> = ["b", "a", "b", "c", "a"].iter().map(|s| s.to_string()).collect();
    assert!(lists(&list, "c"));
    assert!(!lists(&list, "d"));
    assert_eq!(distinct(list), vec!["b", "a", "c"]);
}
