use vstd::prelude::*;
use crate::git::{path_join, path_join_exec};
use crate::time_utils::{trim_chars, trimmed};
use crate::strutil::str_chars;

verus! {

broadcast use vstd::string::group_string_axioms;

// ---------------------------------------------------------------------------
// Config structs
// ---------------------------------------------------------------------------

#[derive(Debug)]
pub struct NexusConfig {
    pub general: GeneralConfig,
    pub groups: Vec<GroupDef>,
    pub tmux: TmuxConfig,
}

#[derive(Debug)]
pub struct GeneralConfig {
    pub db_path: String,
}

#[derive(Debug, Clone)]
pub struct GroupDef {
    pub name: String,
    pub icon: String,
}

#[derive(Debug)]
pub struct TmuxConfig {
    pub socket_name: String,
}

impl Default for TmuxConfig {
    fn default() -> (r: Self)
        ensures
            r.socket_name@ == "nexus"@,
    {
        TmuxConfig { socket_name: default_socket_name() }
    }
}

// ---------------------------------------------------------------------------
// Default value helpers
// ---------------------------------------------------------------------------

/// The tmux socket used when the config names none.
pub fn default_socket_name() -> (r: String)
    ensures
        r@ == "nexus"@,
{
    "nexus".to_owned()
}

/// Where the database lives under a data directory: `<dir>/nexus/nexus.db`.
pub fn db_path_in(data_dir: &str) -> (r: String)
    ensures
        r@ == path_join(data_dir@, "nexus/nexus.db"@),
{
    path_join_exec(data_dir, "nexus/nexus.db")
}

/// Where the config file lives under a config directory: `<dir>/nexus/config.toml`.
pub fn config_path_in(config_dir: &str) -> (r: String)
    ensures
        r@ == path_join(config_dir@, "nexus/config.toml"@),
{
    path_join_exec(config_dir, "nexus/config.toml")
}

// ---------------------------------------------------------------------------
// Validation
// ---------------------------------------------------------------------------

/// Why a config is refused.
#[derive(Debug, Clone, Copy, PartialEq, Eq, Structural)]
pub enum ConfigError {
    /// `groups[index].name` is empty or only whitespace.
    EmptyGroupName { index: usize },
}

impl ConfigError {
    /// The error as a sentence, e.g. `groups[2].name must not be empty`.
    pub fn message(&self) -> (r: String)
        ensures
            r@ == (match *self {
                ConfigError::EmptyGroupName { index } => "groups["@ + crate::numfmt::decimal(index as nat) + "].name must not be empty"@,
            }),
    {
        match *self {
            ConfigError::EmptyGroupName { index } => {
                let mut s = "groups[".to_owned();
                let n = crate::numfmt::u64_to_string(index as u64);
                crate::strutil::push_str(&mut s, n.as_str());
                crate::strutil::push_str(&mut s, "].name must not be empty");
                s
            },
        }
    }
}

/// A group name that is empty once trimmed.
pub open spec fn blank(name: Seq<char>) -> bool {
    trimmed(name).len() == 0
}

pub open spec fn group_names(groups: Seq<GroupDef>) -> Seq<Seq<char>> {
    groups.map_values(|g: GroupDef| g.name@)
}

/// The outcome of validating the groups: the first group with a blank name is reported.
pub open spec fn groups_check(names: Seq<Seq<char>>) -> Result<(), ConfigError> {
    if exists|i: int| 0 <= i < names.len() && blank(#[trigger] names[i]) {
        let i = choose|i: int| 0 <= i < names.len() && blank(#[trigger] names[i]) && forall|j: int| 0 <= j < i ==> !blank(#[trigger] names[j]);
        Err(ConfigError::EmptyGroupName { index: i as usize })
    } else {
        Ok(())
    }
}

/// Check a parsed config: every group needs a non-blank name.
pub fn validate(config: &NexusConfig) -> (r: Result<(), ConfigError>)
    ensures
        r == groups_check(group_names(config.groups@)),
{
    let ghost names = group_names(config.groups@);
    let mut i: usize = 0;
    while i < config.groups.len()
        invariant
            names == group_names(config.groups@),
            i <= config.groups@.len(),
            forall|j: int| 0 <= j < i ==> !blank(#[trigger] names[j]),
        decreases config.groups@.len() - i,
    {
        let t = trim_chars(&str_chars(config.groups[i].name.as_str()));
        if t.len() == 0 {
            proof {
                assert(names[i as int] == config.groups@[i as int].name@);
                assert(blank(names[i as int]));
                let k = choose|k: int| 0 <= k < names.len() && blank(#[trigger] names[k]) && forall|j: int| 0 <= j < k ==> !blank(#[trigger] names[j]);
                assert(0 <= i < names.len() && blank(names[i as int]) && forall|j: int| 0 <= j < i ==> !blank(#[trigger] names[j]));
                if k < i {
                    assert(!blank(names[k]));
                } else if k > i {
                    assert(!blank(names[i as int]));
                }
            }
            return Err(ConfigError::EmptyGroupName { index: i });
        }
        assert(names[i as int] == config.groups@[i as int].name@);
        i += 1;
    }
    Ok(())
}

} // verus!
