use nexus::path_complete::{
    collapse_tilde, complete_path, completion_query, completions, expand_tilde, is_directory, CompletionQuery,
};

#[test]
fn test_expand_tilde_plain() {
    let (result, had) = expand_tilde("/usr/local", Some("/home/dev"));
    assert_eq!(result, "/usr/local");
    assert!(!had);
}

#[test]
fn test_expand_tilde_home() {
    let (result, had) = expand_tilde("~/Documents", Some("/home/dev"));
    assert!(had);
    assert!(!result.starts_with('~'));
    assert!(result.ends_with("/Documents"));
}

#[test]
fn test_expand_tilde_bare() {
    let (result, had) = expand_tilde("~", Some("/home/dev"));
    assert!(had);
    assert!(!result.starts_with('~'));
}

#[test]
fn test_collapse_tilde() {
    let home_str = "/home/dev";
    assert_eq!(collapse_tilde(home_str, Some(home_str)), "~");
    assert_eq!(collapse_tilde(&format!("{home_str}/foo"), Some(home_str)), "~/foo");
}

#[test]
fn tilde_untouched_without_home_or_inside_names() {
    assert_eq!(expand_tilde("~/x", None), ("~/x".to_string(), false));
    assert_eq!(expand_tilde("~user", Some("/home/dev")), ("~user".to_string(), false));
    assert_eq!(collapse_tilde("/home/devel/x", Some("/home/dev")), "/home/devel/x");
    assert_eq!(collapse_tilde("/tmp", None), "/tmp");
}

#[test]
fn collapse_undoes_expand() {
    for input in ["~", "~/", "~/a/b"] {
        let (e, had) = expand_tilde(input, Some("/home/dev"));
        assert!(had);
        assert_eq!(collapse_tilde(&e, Some("/home/dev")), input);
    }
}

#[test]
fn query_for_inputs() {
    assert!(completion_query("", Some("/h")).is_none());
    let q = completion_query("/tmp/", None).unwrap();
    assert_eq!((q.parent_dir.as_str(), q.prefix.as_str(), q.had_tilde), ("/tmp/", "", false));
    let q = completion_query("/tm", None).unwrap();
    assert_eq!((q.parent_dir.as_str(), q.prefix.as_str()), ("/", "tm"));
    let q = completion_query("foo", None).unwrap();
    assert_eq!((q.parent_dir.as_str(), q.prefix.as_str()), (".", "foo"));
    let q = completion_query("~/Do", Some("/home/dev")).unwrap();
    assert_eq!((q.parent_dir.as_str(), q.prefix.as_str(), q.had_tilde), ("/home/dev", "Do", true));
    assert!(completion_query("/", None).is_none() || completion_query("/", None).unwrap().prefix.is_empty());
}

fn entries(list: &[(&str, bool)]) -> Vec<(String, bool)> {
    list.iter().map(|(n, d)| (n.to_string(), *d)).collect()
}

#[test]
fn completions_filter_and_order() {
    let q = CompletionQuery { parent_dir: "/tmp/".to_string(), prefix: "".to_string(), had_tilde: false };
    let e = entries(&[("zeta.txt", false), ("Alpha", true), (".hidden", true), ("beta", true), ("alpha.txt", false)]);
    assert_eq!(completions(&q, &e, None), vec!["/tmp/Alpha", "/tmp/beta", "/tmp/alpha.txt", "/tmp/zeta.txt"]);
}

#[test]
fn completions_match_prefix_ignoring_case() {
    let q = CompletionQuery { parent_dir: "/src".to_string(), prefix: "Ma".to_string(), had_tilde: false };
    let e = entries(&[("main.rs", false), ("MAKEFILE", false), ("lib.rs", false), ("macros", true)]);
    assert_eq!(completions(&q, &e, None), vec!["/src/macros", "/src/main.rs", "/src/MAKEFILE"]);
}

#[test]
fn completions_dot_prefix_shows_hidden_and_tilde_is_kept() {
    let q = CompletionQuery { parent_dir: "/home/dev".to_string(), prefix: ".c".to_string(), had_tilde: true };
    let e = entries(&[(".config", true), (".cache", true), ("code", true)]);
    assert_eq!(completions(&q, &e, Some("/home/dev")), vec!["~/.cache", "~/.config"]);
    let here = CompletionQuery { parent_dir: ".".to_string(), prefix: "".to_string(), had_tilde: false };
    assert_eq!(completions(&here, &entries(&[("a", false)]), None), vec!["a"]);
}

// -- completion queries ---------------------------------------------------------

// -- completing against a small file system -------------------------------------

const HOME: &str = "/home/dev";

/// A file system with a few directories; `None` for a directory that does not exist.
fn listing(dir: &str) -> Option<Vec<(String, bool)>> {
    let list: &[(&str, bool)] = match dir.trim_end_matches('/') {
        "" => &[
            ("bin", true),
            ("etc", true),
            ("home", true),
            ("tmp", true),
            ("usr", true),
            ("var", true),
            (".dockerenv", false),
            ("vmlinuz", false),
        ],
        "/tmp" => &[("session.log", false), ("build", true), ("Cache", true), ("a.txt", false)],
        "/home/dev" => &[("notes.txt", false), ("Documents", true), (".bashrc", false)],
        _ => return None,
    };
    Some(entries(list))
}

fn is_dir(path: &str) -> bool {
    matches!(path.trim_end_matches('/'), "" | "/bin" | "/etc" | "/home" | "/tmp" | "/usr" | "/var" | "/home/dev" | "/tmp/build" | "/tmp/Cache" | "/home/dev/Documents")
}

#[test]
fn test_complete_empty_input() {
    assert!(complete_path("", Some(HOME), listing).is_empty());
}

#[test]
fn test_complete_root() {
    let results = complete_path("/", Some(HOME), listing);
    assert!(!results.is_empty());
    for r in &results {
        assert!(r.starts_with('/'));
    }
}

#[test]
fn test_complete_nonexistent() {
    let results = complete_path("/nonexistent_dir_abc123/", Some(HOME), listing);
    assert!(results.is_empty());
}

#[test]
fn test_complete_tilde() {
    let results = complete_path("~/", Some(HOME), listing);
    assert!(!results.is_empty());
    for r in &results {
        assert!(r.starts_with("~/"), "Expected ~/... but got: {r}");
    }
}

#[test]
fn test_complete_dirs_first() {
    let results = complete_path("/tmp/", Some(HOME), listing);
    assert_eq!(results, vec!["/tmp/build", "/tmp/Cache", "/tmp/a.txt", "/tmp/session.log"]);
    let first_is_dir = is_directory(&results[0], Some(HOME), is_dir);
    let last_is_dir = is_directory(results.last().unwrap(), Some(HOME), is_dir);
    assert!(first_is_dir && !last_is_dir);
}

#[test]
fn test_is_directory() {
    assert!(is_directory("/tmp", Some(HOME), is_dir));
    assert!(!is_directory("/nonexistent_abc123", Some(HOME), is_dir));
    assert!(is_directory("~/Documents", Some(HOME), is_dir));
}

#[test]
fn test_complete_with_partial() {
    let results = complete_path("/tm", Some(HOME), listing);
    assert!(results.iter().any(|r| r.starts_with("/tmp")));
    assert_eq!(results, vec!["/tmp"]);
}

#[test]
fn test_returns_all_matches() {
    // every entry that is not hidden, with no truncation
    let results = complete_path("/", Some(HOME), listing);
    assert!(results.len() > 5, "Expected more than 5 entries in /");
    assert_eq!(results.len(), 7);
}
