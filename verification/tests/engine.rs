use regex_renamer::application::{
    FileEntry, MemFileSystem, MoveRecord, RenameError, Renamer,
};
use regex_renamer::domain::Rule;
use regex_renamer::telemetry::MemoryLogger;

fn file(path: &str) -> FileEntry {
    FileEntry { path: path.to_string(), is_dir: false }
}

fn dir(path: &str) -> FileEntry {
    FileEntry { path: path.to_string(), is_dir: true }
}

fn rule(from: &str, to: &str) -> Rule {
    Rule {
        from: from.to_string(),
        to: to.to_string(),
        file_match_count: None,
        dir_match_count: None,
    }
}

fn renamer_over(entries: Vec<FileEntry>) -> Renamer<MemoryLogger, MemFileSystem> {
    Renamer::new(MemoryLogger::new(), MemFileSystem::new(entries))
}

fn moved(from: &str, to: &str) -> MoveRecord {
    MoveRecord { from: from.to_string(), to: to.to_string() }
}

#[test]
fn execute_logs_each_mapping() {
    let mut renamer = renamer_over(vec![]);
    let rules = vec![rule("src", "dst"), rule("foo", "bar")];

    renamer.execute(&rules).unwrap();

    assert_eq!(
        renamer.logger.messages,
        vec![
            "Mapping 'src' -> 'dst'".to_string(),
            "Mapping 'foo' -> 'bar'".to_string(),
        ]
    );
}

#[test]
fn count_matches_sets_rule_match_count() {
    let mut renamer = renamer_over(vec![file("a.txt"), file("b.rs")]);
    let mut rule = rule(".*\\.txt$", "");

    renamer.count_matches(&mut rule).unwrap();
    assert_eq!(rule.file_match_count, Some(1));
    assert_eq!(rule.dir_match_count, Some(0));
}

#[test]
fn count_all_updates_all_rules() {
    let mut renamer = renamer_over(vec![file("a.txt"), file("b.txt")]);
    let mut rules = vec![rule(".*a\\.txt", ""), rule(".*b\\.txt", "")];

    renamer.count_all_matches(&mut rules).unwrap();

    assert_eq!(rules[0].file_match_count, Some(1));
    assert_eq!(rules[1].file_match_count, Some(1));
}

#[test]
fn execute_moves_matching_files() {
    let mut renamer = renamer_over(vec![file("foo/a.txt"), file("foo/b.txt")]);
    let rules = vec![rule("foo/(.*)\\.txt", "bar/$1.md")];

    renamer.execute(&rules).unwrap();

    assert_eq!(
        renamer.fs.moved,
        vec![moved("foo/a.txt", "bar/a.md"), moved("foo/b.txt", "bar/b.md")]
    );
}

#[test]
fn count_matches_reports_totals_and_logs_the_count_line() {
    let mut renamer = renamer_over(vec![dir("src"), file("src/main.rs"), file("README")]);
    let mut rule = rule("src.*", "");

    let total = renamer.count_matches(&mut rule).unwrap();

    assert_eq!(total, 2);
    assert_eq!(rule.file_match_count, Some(1));
    assert_eq!(rule.dir_match_count, Some(1));
    assert_eq!(
        renamer.logger.messages,
        vec!["Found 1 files and 1 directories for 'src.*'".to_string()]
    );
}

#[test]
fn count_with_no_matches_writes_zero_counts() {
    let mut renamer = renamer_over(vec![file("a.txt"), dir("b")]);
    let mut rule = rule("^nothing-here$", "");
    assert!(rule.file_match_count.is_none());
    assert!(rule.dir_match_count.is_none());

    let total = renamer.count_matches(&mut rule).unwrap();

    assert_eq!(total, 0);
    assert_eq!(rule.file_match_count, Some(0));
    assert_eq!(rule.dir_match_count, Some(0));
}

#[test]
fn rule_with_no_matches_moves_nothing() {
    let mut renamer = renamer_over(vec![file("a.txt"), dir("b")]);
    let rules = vec![rule("^nothing-here$", "x")];

    renamer.execute(&rules).unwrap();

    assert_eq!(renamer.logger.messages.len(), 1);
    assert!(renamer.fs.moved.is_empty());
}

#[test]
fn failed_count_keeps_stale_counts() {
    let mut renamer = renamer_over(vec![file("a.txt")]);
    let mut rule = rule(".*", "");
    renamer.count_matches(&mut rule).unwrap();
    assert_eq!(rule.file_match_count, Some(1));

    rule.from = "(".to_string();
    let result = renamer.count_matches(&mut rule);

    assert!(matches!(result, Err(RenameError::Pattern(_))));
    assert_eq!(rule.file_match_count, Some(1));
    assert_eq!(rule.dir_match_count, Some(0));
    assert_eq!(renamer.logger.messages.len(), 1);
}

#[test]
fn count_all_stops_at_the_first_bad_pattern() {
    let mut renamer = renamer_over(vec![file("a.txt"), file("b.txt")]);
    let mut rules = vec![rule(".*a\\.txt", ""), rule("(", ""), rule(".*b\\.txt", "")];

    let result = renamer.count_all_matches(&mut rules);

    assert!(matches!(result, Err(RenameError::Pattern(_))));
    assert_eq!(rules[0].file_match_count, Some(1));
    assert!(rules[1].file_match_count.is_none());
    assert!(rules[2].file_match_count.is_none());
    assert_eq!(renamer.logger.messages.len(), 1);
}

#[test]
fn execute_against_zero_rules_logs_and_moves_nothing() {
    let mut renamer = renamer_over(vec![file("a.txt")]);
    let rules: Vec<Rule> = Vec::new();

    renamer.execute(&rules).unwrap();

    assert!(renamer.logger.messages.is_empty());
    assert!(renamer.fs.moved.is_empty());
}

#[test]
fn execute_stops_at_the_first_bad_pattern() {
    let mut renamer = renamer_over(vec![file("a.txt"), file("b.txt")]);
    let rules = vec![rule("a\\.txt", "a.moved"), rule("(", "x"), rule("b\\.txt", "b.moved")];

    let result = renamer.execute(&rules);

    assert!(matches!(result, Err(RenameError::Pattern(_))));
    assert_eq!(renamer.fs.moved, vec![moved("a.txt", "a.moved")]);
    assert_eq!(
        renamer.logger.messages,
        vec![
            "Mapping 'a\\.txt' -> 'a.moved'".to_string(),
            "Mapping '(' -> 'x'".to_string(),
        ]
    );
}

#[test]
fn overlapping_rules_are_applied_in_rule_order() {
    let mut renamer = renamer_over(vec![file("x.txt")]);
    let rules = vec![rule("x\\.txt", "y.txt"), rule("x\\.txt", "z.txt")];

    renamer.execute(&rules).unwrap();

    assert_eq!(
        renamer.fs.moved,
        vec![moved("x.txt", "y.txt"), moved("x.txt", "z.txt")]
    );
}

#[test]
fn identity_destination_is_still_moved() {
    let mut renamer = renamer_over(vec![file("same.txt")]);
    let rules = vec![rule("same\\.txt", "same.txt")];

    renamer.execute(&rules).unwrap();

    assert_eq!(renamer.fs.moved, vec![moved("same.txt", "same.txt")]);
}
