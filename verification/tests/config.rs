use nexus::config::{
    config_path_in, db_path_in, default_socket_name, validate, ConfigError, GeneralConfig, GroupDef, NexusConfig,
    TmuxConfig,
};

fn config_with(names: &[&str]) -> NexusConfig {
    NexusConfig {
        general: GeneralConfig { db_path: db_path_in("/data") },
        groups: names.iter().map(|n| GroupDef { name: n.to_string(), icon: String::new() }).collect(),
        tmux: TmuxConfig::default(),
    }
}

#[test]
fn test_default_config_is_valid() {
    let cfg = config_with(&[]);
    assert!(validate(&cfg).is_ok());
    assert!(cfg.general.db_path.ends_with("nexus/nexus.db"));
    assert_eq!(cfg.tmux.socket_name, "nexus");
    assert!(cfg.groups.is_empty());
}

#[test]
fn test_empty_group_name() {
    let cfg = config_with(&["Work", "  "]);
    let err = validate(&cfg);
    assert!(err.is_err());
    let msg = err.unwrap_err().message();
    assert!(msg.contains("name"), "error: {msg}");
    assert_eq!(msg, "groups[1].name must not be empty");
}

#[test]
fn first_blank_group_is_reported() {
    assert_eq!(validate(&config_with(&["", "ok", "\t"])), Err(ConfigError::EmptyGroupName { index: 0 }));
    assert_eq!(validate(&config_with(&["a", "b"])), Ok(()));
}

#[test]
fn default_paths() {
    assert_eq!(default_socket_name(), "nexus");
    assert_eq!(db_path_in("/home/dev/.local/share"), "/home/dev/.local/share/nexus/nexus.db");
    assert_eq!(db_path_in("/data/"), "/data/nexus/nexus.db");
    assert_eq!(config_path_in("/home/dev/.config"), "/home/dev/.config/nexus/config.toml");
}
