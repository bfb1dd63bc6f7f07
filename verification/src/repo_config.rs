use vstd::prelude::*;

verus! {

/// Per-repo configuration, read from `.nexus.toml` at the repo root.
#[derive(Debug)]
pub struct RepoConfig {
    pub worktree: RepoWorktreeConfig,
}

#[derive(Debug)]
pub struct RepoWorktreeConfig {
    pub branch_prefix: Option<String>,
    pub on_create: Option<String>,
    pub on_teardown: Option<String>,
}

impl Default for RepoWorktreeConfig {
    fn default() -> (r: Self)
        ensures
            r.branch_prefix is None,
            r.on_create is None,
            r.on_teardown is None,
    {
        RepoWorktreeConfig { branch_prefix: None, on_create: None, on_teardown: None }
    }
}

impl Default for RepoConfig {
    fn default() -> (r: Self)
        ensures
            r.worktree.branch_prefix is None,
            r.worktree.on_create is None,
            r.worktree.on_teardown is None,
    {
        RepoConfig { worktree: RepoWorktreeConfig::default() }
    }
}

} // verus!
