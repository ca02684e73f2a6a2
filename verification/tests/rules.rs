use regex_renamer::domain;
use regex_renamer::pattern::CompiledPattern;
use regex_renamer::Rule;

#[test]
fn rule_matches_input() {
    let rule = Rule::new("^file.*\\.txt$", "dest").unwrap();
    assert_eq!(rule.apply("file1.txt"), Some("dest".into()));
}

#[test]
fn rule_does_not_match() {
    let rule = Rule::new("^file.*\\.txt$", "dest").unwrap();
    assert_eq!(rule.apply("other.pdf"), None);
}

#[test]
fn default_rule_is_empty() {
    let rule = domain::Rule::default();
    assert!(rule.from.is_empty());
    assert!(rule.to.is_empty());
    assert!(rule.file_match_count.is_none());
    assert!(rule.dir_match_count.is_none());
}

#[test]
fn invalid_pattern_is_rejected() {
    assert!(Rule::new("(", "dest").is_err());
    assert!(CompiledPattern::compile("[").is_err());
}

#[test]
fn compiling_twice_gives_same_behavior() {
    let first = CompiledPattern::compile("^a(b*)c$").unwrap();
    let second = CompiledPattern::compile("^a(b*)c$").unwrap();
    for haystack in ["abbbc", "ac", "abc extra", ""] {
        assert_eq!(first.is_match(haystack), second.is_match(haystack));
    }
    assert_eq!(
        first.replace_first("abbc", "[$1]"),
        second.replace_first("abbc", "[$1]"),
    );
}

#[test]
fn replace_expands_capture_groups() {
    let pattern = CompiledPattern::compile("(a+)(b+)").unwrap();
    assert_eq!(pattern.replace_first("xxaabbyy", "$2-$1"), "xxbb-aayy");
}

#[test]
fn compiled_pattern_keeps_its_source() {
    let pattern = CompiledPattern::compile("(a+)(b+)").unwrap();
    assert_eq!(pattern.source(), "(a+)(b+)");
}
