use aivorelay::text_replacement::{
    apply_text_replacements, process_escapes, try_apply_text_replacements, CompiledRegex, TextReplacement,
};

fn rule(from: &str, to: &str, case_sensitive: bool, is_regex: bool) -> TextReplacement {
    TextReplacement {
        id: "r".to_string(),
        from: from.to_string(),
        to: to.to_string(),
        enabled: true,
        case_sensitive,
        is_regex,
    }
}

#[test]
fn escapes() {
    assert_eq!(process_escapes("a\\nb"), "a\nb");
    assert_eq!(process_escapes("x\\r\\ny"), "x\r\ny");
    assert_eq!(process_escapes("x\\ry"), "x\ry");
    assert_eq!(process_escapes("\\t|\\\\"), "\t|\\");
    assert_eq!(process_escapes("\\u{48}i"), "Hi");
    assert_eq!(process_escapes("\\u{1F600}"), "\u{1F600}");
    assert_eq!(process_escapes("\\u{d800}"), "\\u{d800}");
    assert_eq!(process_escapes("\\u{zz}"), "\\u{}zz}");
    assert_eq!(process_escapes("\\ux"), "\\ux");
    assert_eq!(process_escapes("\\q"), "\\q");
    assert_eq!(process_escapes("plain"), "plain");
}

#[test]
fn plain_rules() {
    assert_eq!(rule("foo", "bar", true, false).apply("foo Foo"), "bar Foo");
    assert_eq!(rule("foo", "bar", false, false).apply("foo Foo FOO"), "bar bar bar");
    assert_eq!(rule("\\n", " ", true, false).apply("a\nb"), "a b");
    let mut off = rule("a", "b", true, false);
    off.enabled = false;
    assert_eq!(off.apply("aaa"), "aaa");
    assert_eq!(rule("", "b", true, false).apply("aaa"), "aaa");
}

#[test]
fn regex_rules() {
    assert_eq!(rule("(\\d+)", "<$1>", true, true).apply("a 12 b 3"), "a <12> b <3>");
    assert_eq!(rule("hello", "bye", false, true).apply("HeLLo x"), "bye x");
    assert_eq!(rule("hello", "bye", true, true).apply("HeLLo x"), "HeLLo x");
    assert_eq!(rule("(", "x", true, true).apply("(a)"), "(a)");
    assert!(CompiledRegex::new("(").is_none());
    assert!(CompiledRegex::new("a+").is_some());
}

#[test]
fn rules_apply_in_order() {
    let rules = vec![rule("a", "b", true, false), rule("b", "c", true, false)];
    assert_eq!(apply_text_replacements("ab", &rules), "cc");
    assert_eq!(try_apply_text_replacements("ab", &rules), Some("cc".to_string()));
}

#[test]
fn case_insensitive_cut_inside_a_character_is_refused() {
    let rules = vec![rule("i", "x", false, false)];
    assert_eq!(try_apply_text_replacements("İx", &rules), None);
    assert_eq!(try_apply_text_replacements("Ix i", &rules), Some("xx x".to_string()));
}
