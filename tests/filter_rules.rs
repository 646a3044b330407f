use index_crawler::{should_filter, validate_filters, FilterError, FilterRule, RuleType};

fn rule(rule_type: RuleType, pattern: &str) -> FilterRule {
    FilterRule { rule_type, pattern: pattern.to_string() }
}

#[test]
fn no_rules_keep_every_path() {
    assert_eq!(should_filter("a.txt", &[]), Ok(false));
    assert_eq!(should_filter("sub/b.txt", &[]), Ok(false));
}

#[test]
fn exclude_wins_wherever_it_stands() {
    let before = vec![rule(RuleType::Exclude, "*.iso"), rule(RuleType::Include, "*")];
    let after = vec![rule(RuleType::Include, "*"), rule(RuleType::Exclude, "*.iso")];
    assert_eq!(should_filter("disk.iso", &before), Ok(true));
    assert_eq!(should_filter("disk.iso", &after), Ok(true));
    assert_eq!(should_filter("notes.txt", &after), Ok(false));
}

#[test]
fn unmatched_path_is_excluded_by_default() {
    let rules = vec![rule(RuleType::Include, "*.txt")];
    assert_eq!(should_filter("a.txt", &rules), Ok(false));
    assert_eq!(should_filter("a.bin", &rules), Ok(true));
    let only_excludes = vec![rule(RuleType::Exclude, "*.iso")];
    assert_eq!(should_filter("a.txt", &only_excludes), Ok(true));
}

#[test]
fn star_matches_across_separators() {
    let rules = vec![rule(RuleType::Include, "*")];
    assert_eq!(should_filter("sub/b.txt", &rules), Ok(false));
}

#[test]
fn recursive_exclude_prunes_directory_and_contents() {
    let rules = vec![rule(RuleType::Include, "*"), rule(RuleType::Exclude, "sub/**")];
    assert_eq!(should_filter("sub/", &rules), Ok(true));
    assert_eq!(should_filter("sub/b.txt", &rules), Ok(true));
    assert_eq!(should_filter("a.txt", &rules), Ok(false));
}

#[test]
fn malformed_pattern_is_reported_with_its_position() {
    let rules = vec![rule(RuleType::Include, "*"), rule(RuleType::Include, "a**b")];
    assert_eq!(validate_filters(&rules), Err(FilterError::InvalidPattern(1)));
    assert_eq!(should_filter("x", &rules), Err(FilterError::InvalidPattern(1)));
    let fine = vec![rule(RuleType::Include, "*"), rule(RuleType::Exclude, "**/tmp/**")];
    assert_eq!(validate_filters(&fine), Ok(()));
}

#[test]
fn exclude_before_malformed_pattern_decides() {
    let rules = vec![rule(RuleType::Exclude, "*.iso"), rule(RuleType::Include, "[")];
    assert_eq!(should_filter("disk.iso", &rules), Ok(true));
    assert_eq!(should_filter("disk.txt", &rules), Err(FilterError::InvalidPattern(1)));
}
