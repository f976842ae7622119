//! Strings and YAML documents.

use git_warp::text::{byte_prefix, decimal, has_text, is_white_space, split_text, strip_prefix, trim};
use git_warp::yaml::Yaml;

#[test]
fn white_space_is_what_unicode_says() {
    for u in 0..=0x10ffffu32 {
        if let Some(c) = char::from_u32(u) {
            assert_eq!(is_white_space(c), c.is_whitespace(), "{:x}", u);
        }
    }
}

#[test]
fn trimming() {
    for s in ["", " ", "a", " a ", "\t a b\n", "\u{2003}x\u{85}", "x\u{200b}", "\r\n"] {
        assert_eq!(trim(s), s.trim());
    }
}

#[test]
fn splitting() {
    for s in ["", "/", "a", "a/b", "/a//b/", "\u{e9}/\u{1f600}"] {
        let expected: Vec<&str> = s.split('/').collect();
        assert_eq!(split_text(s, '/'), expected);
    }
}

#[test]
fn searching() {
    for (s, p) in [("", ""), ("a", ""), ("", "a"), ("aab", "ab"), ("aba", "bb"), ("abc", "abc")] {
        assert_eq!(has_text(s, p), s.contains(p));
        assert_eq!(strip_prefix(s, p).as_deref(), s.strip_prefix(p));
    }
}

#[test]
fn numbers() {
    for n in [0u64, 7, 9, 10, 99, 100, 1_234_567_890, u64::MAX] {
        assert_eq!(decimal(n), n.to_string());
    }
}

#[test]
fn prefixes_in_bytes() {
    assert_eq!(byte_prefix("abcdef", 3), "abc");
    assert_eq!(byte_prefix("a\u{e9}b", 3), "a\u{e9}");
    assert_eq!(byte_prefix("abc", 0), "");
    assert_eq!(byte_prefix("abc", 3), "abc");
}

#[test]
fn documents_are_read_and_written() {
    for text in [
        "a: 1\nb: [x, 2.5, true, null]\nc: {d: e}\n",
        "- !tag {a: 1}\n- !other x\n",
        "1: a\ntrue: b\n? [x]\n: c\n",
        "plain",
        "",
        "x: .nan\ny: -3\nz: 1e300\n",
        "s: '12'\nt: \"line\\nbreak\"\n",
    ] {
        let value: serde_yaml::Value = serde_yaml::from_str(text).unwrap();
        let expected = serde_yaml::to_string(&value).unwrap();
        assert_eq!(Yaml::parse(text).unwrap().emit().unwrap(), expected);
    }
    for text in ["a: [", "a: 1\na: 2\n", "\t- x"] {
        assert!(serde_yaml::from_str::<serde_yaml::Value>(text).is_err());
        assert!(Yaml::parse(text).is_err());
    }
}

#[test]
fn looking_into_documents() {
    let doc = Yaml::parse("a: !t {b: !u text}\nn: 5\n").unwrap();
    assert_eq!(doc.get("a").unwrap().get("b").unwrap().as_str(), Some("text"));
    assert!(doc.get("x").is_none());
    assert!(doc.get("n").unwrap().get("x").is_none());
    assert!(doc.get("n").unwrap().as_str().is_none());
}
