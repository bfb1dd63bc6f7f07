use nexus::grouping::{glob_match, matching_rule, plan_rule_assignments, AutoGroupRule};

#[test]
fn test_glob_exact() {
    assert!(glob_match("hello", "hello"));
    assert!(!glob_match("hello", "world"));
}

#[test]
fn test_glob_star() {
    assert!(glob_match("*", "anything"));
    assert!(glob_match("*", ""));
    assert!(glob_match("hello*", "hello"));
    assert!(glob_match("hello*", "hello world"));
    assert!(glob_match("*world", "hello world"));
    assert!(glob_match("*llo*", "hello world"));
}

#[test]
fn test_glob_question_mark() {
    assert!(glob_match("h?llo", "hello"));
    assert!(!glob_match("h?llo", "hllo"));
    assert!(glob_match("???", "abc"));
    assert!(!glob_match("???", "ab"));
}

#[test]
fn test_glob_combined() {
    assert!(glob_match("*/work/*", "/Users/foo/work/project"));
    assert!(!glob_match("*/work/*", "/Users/foo/personal/project"));
    assert!(glob_match("*/Code/*", "/Users/marcos/Code/nexus"));
    assert!(glob_match("/home/*/projects/*", "/home/user/projects/myapp"));
}

#[test]
fn test_glob_empty() {
    assert!(glob_match("", ""));
    assert!(!glob_match("", "notempty"));
    assert!(glob_match("*", ""));
}

#[test]
fn test_glob_multiple_stars() {
    assert!(glob_match("*/*", "a/b"));
    assert!(glob_match("**", "anything"));
    assert!(glob_match("a*b*c", "aXbYc"));
    assert!(glob_match("a*b*c", "abc"));
    assert!(!glob_match("a*b*c", "aXbY"));
}

#[test]
fn glob_backtracks_after_a_false_start() {
    assert!(glob_match("*ab", "aab"));
    assert!(glob_match("a*a", "aaa"));
    assert!(!glob_match("a*a", "ab"));
}

// -- rule assignment ---------------------------------------------------------

fn rule(pattern: &str, group: &str) -> AutoGroupRule {
    AutoGroupRule { pattern: pattern.to_string(), group: group.to_string() }
}

fn ungrouped(id: &str, cwd: &str) -> (String, Option<String>) {
    (id.to_string(), Some(cwd.to_string()))
}

fn groups_of(rules: &Vec<AutoGroupRule>, plan: &[(String, usize)]) -> Vec<(String, String)> {
    plan.iter().map(|(id, k)| (id.clone(), rules[*k].group.clone())).collect()
}

#[test]
fn test_apply_rules_basic() {
    let sessions = vec![
        ungrouped("s1", "/Users/user/work/project-a"),
        ungrouped("s2", "/Users/user/personal/notes"),
        ungrouped("s3", "/Users/user/work/project-b"),
    ];
    let rules = vec![rule("*/work/*", "Work"), rule("*/personal/*", "Personal")];

    let plan = plan_rule_assignments(&rules, &sessions);
    assert_eq!(plan.len(), 3);

    // no session stays ungrouped
    let groups = groups_of(&rules, &plan);
    assert!(sessions.iter().all(|(id, _)| groups.iter().any(|(g, _)| g == id)));

    // both groups are used
    assert!(groups.iter().any(|(_, g)| g == "Work"));
    assert!(groups.iter().any(|(_, g)| g == "Personal"));
}

#[test]
fn test_apply_rules_no_match() {
    let sessions = vec![ungrouped("s1", "/opt/random/path")];
    let rules = vec![rule("*/work/*", "Work")];

    let plan = plan_rule_assignments(&rules, &sessions);
    assert_eq!(plan.len(), 0);

    let still_ungrouped = sessions.iter().filter(|(id, _)| !plan.iter().any(|(p, _)| p == id)).count();
    assert_eq!(still_ungrouped, 1);
}

#[test]
fn test_apply_rules_empty_rules() {
    let sessions = vec![ungrouped("s1", "/Users/test")];
    let plan = plan_rule_assignments(&Vec::new(), &sessions);
    assert_eq!(plan.len(), 0);
}

#[test]
fn test_apply_rules_first_match_wins() {
    let sessions = vec![ungrouped("s1", "/Users/user/work/project")];
    let rules = vec![rule("*", "CatchAll"), rule("*/work/*", "Work")];

    let plan = plan_rule_assignments(&rules, &sessions);

    // Should be assigned to CatchAll (first match), not Work
    assert_eq!(groups_of(&rules, &plan), vec![("s1".to_string(), "CatchAll".to_string())]);
}

#[test]
fn test_apply_rules_reuses_existing_group() {
    let sessions = vec![ungrouped("s1", "/Users/user/work/project")];
    let rules = vec![rule("*/work/*", "Work")];

    // the session goes to the group named by the rule, whatever id it already has
    let plan = plan_rule_assignments(&rules, &sessions);
    assert_eq!(groups_of(&rules, &plan), vec![("s1".to_string(), "Work".to_string())]);
}

#[test]
fn sessions_without_cwd_are_left_alone() {
    let sessions = vec![("s1".to_string(), None), ungrouped("s2", "/a/work/b")];
    let rules = vec![rule("*", "All")];
    let plan = plan_rule_assignments(&rules, &sessions);
    assert_eq!(plan, vec![("s2".to_string(), 0)]);
}

#[test]
fn matching_rule_picks_the_first() {
    let rules = vec![rule("/x/*", "X"), rule("*/work/*", "Work"), rule("*", "All")];
    assert_eq!(matching_rule(&rules, "/home/work/a"), Some(1));
    assert_eq!(matching_rule(&rules, "/x/y"), Some(0));
    assert_eq!(matching_rule(&rules, "/tmp"), Some(2));
    assert_eq!(matching_rule(&rules[..1].to_vec(), "/tmp"), None);
}

#[test]
fn question_mark_matches_one_character() {
    assert!(glob_match("?", "é"));
    assert!(glob_match("caf?", "café"));
    assert!(!glob_match("??", "é"));
    // a `*` in the text is first taken as the pattern's literal `*`
    assert!(!glob_match("*b", "*xb"));
    assert!(glob_match("*b", "xb"));
}

#[test]
fn a_star_in_the_text_is_plain_under_a_star_free_pattern() {
    assert!(glob_match("a?c", "a*c"));
    assert!(glob_match("a*c", "a*c"));
    assert!(!glob_match("abc", "a*c"));
}
