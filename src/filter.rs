use crate::config::{FilterRule, RuleType};
use vstd::prelude::*;

verus! {

/// Whether `glob::Pattern::new` accepts `pattern`.
pub uninterp spec fn glob_compiles(pattern: Seq<char>) -> bool;

/// Whether the pattern compiled from `pattern` matches `path`
/// (`glob::Pattern::matches`, default match options).
pub uninterp spec fn glob_matches(pattern: Seq<char>, path: Seq<char>) -> bool;

/// Relies on glob::Pattern::new, which rejects a malformed pattern, and on
/// glob::Pattern::matches for the compiled one: `None` when the pattern does
/// not compile, else whether it matches `path`.
#[verifier::external_body]
fn glob_match(pattern: &str, path: &str) -> (r: Option<bool>)
    ensures
        r is Some <==> glob_compiles(pattern@),
        r matches Some(m) ==> m == glob_matches(pattern@, path@),
{
    match glob::Pattern::new(pattern) {
        Ok(compiled) => Some(compiled.matches(path)),
        Err(_) => None,
    }
}

/// A filter rule that names a malformed glob pattern, by its position.
#[derive(Clone, Copy, Debug, PartialEq, Eq, Structural)]
pub enum FilterError {
    InvalidPattern(usize),
}

/// The rule's pattern compiles and matches `path`.
pub open spec fn rule_hits(rule: FilterRule, path: Seq<char>) -> bool {
    glob_compiles(rule.pattern@) && glob_matches(rule.pattern@, path)
}

/// Some rule of kind `kind` matches `path`.
pub open spec fn some_rule_hits(rules: Seq<FilterRule>, path: Seq<char>, kind: RuleType) -> bool {
    exists|i: int| 0 <= i < rules.len() && rules[i].rule_type == kind && #[trigger] rule_hits(rules[i], path)
}

/// The filter policy: no rules keep everything; otherwise a path is dropped
/// when an exclude rule matches it or when no include rule does.
pub open spec fn excluded(rules: Seq<FilterRule>, path: Seq<char>) -> bool {
    rules.len() > 0 && (some_rule_hits(rules, path, RuleType::Exclude) || !some_rule_hits(
        rules,
        path,
        RuleType::Include,
    ))
}

/// Every pattern of `rules` compiles.
pub open spec fn all_patterns_compile(rules: Seq<FilterRule>) -> bool {
    forall|i: int| 0 <= i < rules.len() ==> glob_compiles(#[trigger] rules[i].pattern@)
}

/// Scanning the rules in order for `path` reaches rule `i`, whose pattern
/// is malformed, before any exclude rule has matched.
pub open spec fn stops_at_bad_pattern(rules: Seq<FilterRule>, path: Seq<char>, i: int) -> bool {
    &&& 0 <= i < rules.len()
    &&& !glob_compiles(rules[i].pattern@)
    &&& forall|j: int|
        0 <= j < i ==> glob_compiles(#[trigger] rules[j].pattern@) && !(rules[j].rule_type
            == RuleType::Exclude && rule_hits(rules[j], path))
}

/// Decides whether `path` (relative to the crawl root) is filtered out.
/// Rules are scanned in order: an exclude rule that matches decides at once,
/// an include rule that matches marks the path as kept. A malformed pattern
/// met on the way is an error.
pub fn should_filter(path: &str, filters: &[FilterRule]) -> (r: Result<bool, FilterError>)
    ensures
        all_patterns_compile(filters@) ==> r is Ok,
        r matches Ok(b) ==> b == excluded(filters@, path@),
        r matches Ok(_) ==> forall|i: int| !stops_at_bad_pattern(filters@, path@, i),
        r matches Err(FilterError::InvalidPattern(i)) ==> stops_at_bad_pattern(
            filters@,
            path@,
            i as int,
        ),
{
    if filters.len() == 0 {
        return Ok(false);
    }
    let mut included = false;
    let mut i: usize = 0;
    while i < filters.len()
        invariant
            0 < filters@.len(),
            i <= filters@.len(),
            forall|j: int|
                0 <= j < i ==> glob_compiles(#[trigger] filters@[j].pattern@) && !(
                filters@[j].rule_type == RuleType::Exclude && rule_hits(filters@[j], path@)),
            included <==> exists|j: int|
                0 <= j < i && filters@[j].rule_type == RuleType::Include && #[trigger] rule_hits(
                    filters@[j],
                    path@,
                ),
        decreases filters@.len() - i,
    {
        let rule = &filters[i];
        match glob_match(rule.pattern.as_str(), path) {
            None => {
                return Err(FilterError::InvalidPattern(i));
            },
            Some(hit) => {
                assert(hit == rule_hits(filters@[i as int], path@));
                if hit {
                    match rule.rule_type {
                        RuleType::Include => {
                            included = true;
                        },
                        RuleType::Exclude => {
                            assert(rule_hits(filters@[i as int], path@));
                            return Ok(true);
                        },
                    }
                }
            },
        }
        i = i + 1;
    }
    proof {
        assert forall|k: int| !stops_at_bad_pattern(filters@, path@, k) by {
            if 0 <= k < filters@.len() {
                assert(glob_compiles(filters@[k].pattern@));
            }
        }
        if some_rule_hits(filters@, path@, RuleType::Exclude) {
            let k = choose|k: int|
                0 <= k < filters@.len() && filters@[k].rule_type == RuleType::Exclude
                    && #[trigger] rule_hits(filters@[k], path@);
            assert(glob_compiles(filters@[k].pattern@));
        }
    }
    Ok(!included)
}

/// Checks every rule's pattern once, before any path is filtered: the error
/// names the first malformed one.
pub fn validate_filters(filters: &[FilterRule]) -> (r: Result<(), FilterError>)
    ensures
        r is Ok <==> all_patterns_compile(filters@),
        r matches Err(FilterError::InvalidPattern(i)) ==> i < filters@.len() && !glob_compiles(
            filters@[i as int].pattern@,
        ) && forall|j: int| 0 <= j < i ==> glob_compiles(#[trigger] filters@[j].pattern@),
{
    let mut i: usize = 0;
    while i < filters.len()
        invariant
            i <= filters@.len(),
            forall|j: int| 0 <= j < i ==> glob_compiles(#[trigger] filters@[j].pattern@),
        decreases filters@.len() - i,
    {
        if glob_match(filters[i].pattern.as_str(), "").is_none() {
            return Err(FilterError::InvalidPattern(i));
        }
        i = i + 1;
    }
    Ok(())
}

/// The filter policy: with no rules nothing is excluded; a path that an
/// exclude rule matches is excluded wherever that rule stands relative to
/// any include rule that matches it too; with some rules, a path that no
/// include rule matches is excluded.
pub proof fn lemma_filter_policy(path: Seq<char>, rules: Seq<FilterRule>)
    ensures
        !excluded(Seq::<FilterRule>::empty(), path),
        some_rule_hits(rules, path, RuleType::Exclude) ==> excluded(rules, path),
        rules.len() > 0 && !some_rule_hits(rules, path, RuleType::Include) ==> excluded(
            rules,
            path,
        ),
{
    if some_rule_hits(rules, path, RuleType::Exclude) {
        let k = choose|k: int|
            0 <= k < rules.len() && rules[k].rule_type == RuleType::Exclude
                && #[trigger] rule_hits(rules[k], path);
        assert(rules.len() > 0);
    }
}

/// With well-formed rules the filter always answers, and its answer is the
/// policy above.
pub proof fn lemma_filter_answers(path: Seq<char>, rules: Seq<FilterRule>)
    requires
        all_patterns_compile(rules),
    ensures
        forall|i: int| !stops_at_bad_pattern(rules, path, i),
{
    assert forall|i: int| !stops_at_bad_pattern(rules, path, i) by {
        if 0 <= i < rules.len() {
            assert(glob_compiles(rules[i].pattern@));
        }
    }
}

} // verus!
