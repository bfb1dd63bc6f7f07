use nexus::git::{
    hook_env_vars, inside_work_tree, normalize_prefix, repo_from_toplevel, resolve_branch_prefix, resolve_hook_path, sanitize_branch_name,
};

#[test]
fn test_sanitize_branch_name_basic() {
    assert_eq!(sanitize_branch_name("my-feature", "nexus"), "nexus/my-feature");
}

#[test]
fn test_sanitize_branch_name_spaces() {
    assert_eq!(sanitize_branch_name("my feature", "nexus"), "nexus/my-feature");
}

#[test]
fn test_sanitize_branch_name_special_chars() {
    assert_eq!(sanitize_branch_name("hello!@#$world", "nexus"), "nexus/hello-world");
}

#[test]
fn test_sanitize_branch_name_unicode() {
    assert_eq!(sanitize_branch_name("café☕", "nexus"), "nexus/caf");
}

#[test]
fn test_sanitize_branch_name_empty() {
    assert_eq!(sanitize_branch_name("", "nexus"), "nexus/session");
}

#[test]
fn test_sanitize_branch_name_only_special() {
    assert_eq!(sanitize_branch_name("!!!", "nexus"), "nexus/session");
}

#[test]
fn test_sanitize_branch_name_force_flag() {
    assert_eq!(sanitize_branch_name("--force", "nexus"), "nexus/force");
}

#[test]
fn test_sanitize_branch_name_dash_b() {
    assert_eq!(sanitize_branch_name("-b", "nexus"), "nexus/b");
}

#[test]
fn test_sanitize_branch_name_path_escape() {
    assert_eq!(sanitize_branch_name("../escape", "nexus"), "nexus/escape");
}

#[test]
fn test_sanitize_branch_name_dot_lock() {
    assert_eq!(sanitize_branch_name("my-branch.lock", "nexus"), "nexus/my-branch");
}

#[test]
fn test_sanitize_branch_name_consecutive_dashes() {
    assert_eq!(sanitize_branch_name("a---b", "nexus"), "nexus/a-b");
}

#[test]
fn test_sanitize_branch_name_dots_and_slashes() {
    assert_eq!(sanitize_branch_name("feat/v2.0/thing", "nexus"), "nexus/feat/v2.0/thing");
}

#[test]
fn test_sanitize_branch_name_custom_prefix() {
    assert_eq!(sanitize_branch_name("fix-bug", "my-app"), "my-app/fix-bug");
}

#[test]
fn test_sanitize_branch_name_empty_prefix() {
    assert_eq!(sanitize_branch_name("fix-bug", ""), "fix-bug");
}

#[test]
fn test_sanitize_branch_name_empty_name_empty_prefix() {
    assert_eq!(sanitize_branch_name("", ""), "session");
}

#[test]
fn test_sanitize_branch_name_empty_name_custom_prefix() {
    assert_eq!(sanitize_branch_name("", "team"), "team/session");
}

#[test]
fn test_normalize_prefix_dots() {
    assert_eq!(normalize_prefix("my.company.app"), "my-company-app");
}

#[test]
fn test_normalize_prefix_underscores() {
    assert_eq!(normalize_prefix("my_app_name"), "my-app-name");
}

#[test]
fn test_normalize_prefix_empty() {
    assert_eq!(normalize_prefix(""), "");
}

#[test]
fn test_normalize_prefix_clean() {
    assert_eq!(normalize_prefix("my-app"), "my-app");
}

// The prefix is resolved from the repo config's branch_prefix, the global one, and the
// repository's directory name, which the caller reads.

#[test]
fn test_resolve_prefix_from_repo_dir() {
    assert_eq!(resolve_branch_prefix(None, None, Some("my-project")), "my-project");
}

#[test]
fn test_resolve_prefix_global_overrides_dir() {
    assert_eq!(resolve_branch_prefix(None, Some("team"), Some("my-project")), "team");
}

#[test]
fn test_resolve_prefix_repo_config_overrides_global() {
    assert_eq!(resolve_branch_prefix(Some("custom"), Some("global"), Some("my-project")), "custom");
}

#[test]
fn test_resolve_prefix_repo_config_empty_disables() {
    assert_eq!(resolve_branch_prefix(Some(""), Some("global"), Some("my-project")), "");
}

#[test]
fn test_resolve_prefix_global_empty_disables() {
    assert_eq!(resolve_branch_prefix(None, Some(""), Some("my-project")), "");
}

#[test]
fn test_resolve_prefix_dir_with_dots_normalized() {
    assert_eq!(resolve_branch_prefix(None, None, Some("my.company.app")), "my-company-app");
}

#[test]
fn sanitized_branch_is_safe_for_git() {
    let b = sanitize_branch_name("..a//b..c.lock", "");
    assert!(!b.contains(".."));
    assert!(!b.contains("//"));
    assert!(!b.starts_with('/'));
}

// -- repository detection -------------------------------------------------------

#[test]
fn rev_parse_answers_are_read() {
    assert!(inside_work_tree(true, "true\n"));
    assert!(!inside_work_tree(true, "false\n"));
    assert!(!inside_work_tree(false, "true\n"));
    assert!(!inside_work_tree(true, "truex"));
    let repo = repo_from_toplevel(true, "  /home/dev/app\n").unwrap();
    assert_eq!(repo.root, "/home/dev/app");
    assert!(repo_from_toplevel(true, " \n").is_none());
    assert!(repo_from_toplevel(false, "/home/dev/app\n").is_none());
}

// -- hook resolution --------------------------------------------------------------

const REPO: &str = "/work/repo";
const CONVENTION: &str = "/work/repo/.nexus/on-worktree-create";

/// A file system in which exactly the given paths are usable hooks.
fn valid_hooks(paths: &'static [&'static str]) -> impl Fn(&str) -> bool {
    move |p: &str| paths.contains(&p)
}

#[test]
fn test_resolve_hook_path_repo_config_wins() {
    let result = resolve_hook_path(
        REPO,
        "on-worktree-create",
        Some("scripts/create.sh"),
        None,
        Some("/global/hook.sh"),
        Some("/home/dev"),
        valid_hooks(&[CONVENTION, "/work/repo/scripts/create.sh", "/global/hook.sh"]),
    );
    assert_eq!(result.as_deref(), Some("/work/repo/scripts/create.sh"));
}

#[test]
fn test_resolve_hook_path_global_config_over_convention() {
    let result = resolve_hook_path(
        REPO,
        "on-worktree-create",
        None,
        None,
        Some("/tmp/t/global-hook.sh"),
        Some("/home/dev"),
        valid_hooks(&[CONVENTION, "/tmp/t/global-hook.sh"]),
    );
    assert_eq!(result.as_deref(), Some("/tmp/t/global-hook.sh"));
}

#[test]
fn test_resolve_hook_path_convention_fallback() {
    let result = resolve_hook_path(REPO, "on-worktree-create", None, None, None, Some("/home/dev"), valid_hooks(&[CONVENTION]));
    assert_eq!(result.as_deref(), Some(CONVENTION));
}

#[test]
fn test_resolve_hook_path_no_hooks() {
    let result = resolve_hook_path(REPO, "on-worktree-create", None, None, None, Some("/home/dev"), valid_hooks(&[]));
    assert!(result.is_none());
}

#[test]
fn test_resolve_hook_path_repo_config_invalid_no_fallthrough() {
    let result = resolve_hook_path(
        REPO,
        "on-worktree-create",
        Some("nonexistent.sh"),
        None,
        None,
        Some("/home/dev"),
        valid_hooks(&[CONVENTION]),
    );
    assert!(result.is_none());
}

#[test]
fn test_resolve_hook_path_global_config_invalid_no_fallthrough() {
    let result = resolve_hook_path(
        REPO,
        "on-worktree-create",
        None,
        None,
        Some("/nonexistent/hook.sh"),
        Some("/home/dev"),
        valid_hooks(&[CONVENTION]),
    );
    assert!(result.is_none());
}

#[test]
fn test_resolve_hook_path_repo_config_path_traversal_rejected() {
    let result = resolve_hook_path(
        REPO,
        "on-worktree-create",
        Some("../../../etc/evil.sh"),
        None,
        None,
        Some("/home/dev"),
        |_: &str| true,
    );
    assert!(result.is_none());
}

#[test]
fn teardown_hook_uses_its_own_setting() {
    let result = resolve_hook_path(
        REPO,
        "on-worktree-teardown",
        Some("scripts/create.sh"),
        Some("scripts/teardown.sh"),
        None,
        None,
        |_: &str| true,
    );
    assert_eq!(result.as_deref(), Some("/work/repo/scripts/teardown.sh"));
    let convention = resolve_hook_path(REPO, "on-worktree-teardown", Some("scripts/create.sh"), None, None, None, |_: &str| true);
    assert_eq!(convention.as_deref(), Some("/work/repo/.nexus/on-worktree-teardown"));
}

#[test]
fn test_expand_tilde() {
    let expanded =
        resolve_hook_path(REPO, "on-worktree-create", None, None, Some("~/scripts/hook.sh"), Some("/home/dev"), |_: &str| true)
            .unwrap();
    assert!(!expanded.starts_with('~'));
    assert!(expanded.ends_with("scripts/hook.sh"));
    assert_eq!(expanded, "/home/dev/scripts/hook.sh");

    // Absolute path unchanged
    let abs = resolve_hook_path(REPO, "on-worktree-create", None, None, Some("/usr/bin/hook.sh"), Some("/home/dev"), |_: &str| true);
    assert_eq!(abs.as_deref(), Some("/usr/bin/hook.sh"));
}

#[test]
fn hooks_get_the_worktree_variables() {
    let vars = hook_env_vars("/work/repo", "/work/repo/.worktrees/x", "repo/x", "");
    let pairs: Vec<(&str, &str)> = vars.iter().map(|(k, v)| (k.as_str(), v.as_str())).collect();
    assert_eq!(
        pairs,
        vec![
            ("NEXUS_WORKTREE_PATH", "/work/repo/.worktrees/x"),
            ("NEXUS_BRANCH", "repo/x"),
            ("NEXUS_SESSION_NAME", ""),
            ("NEXUS_REPO_ROOT", "/work/repo"),
        ]
    );
}
