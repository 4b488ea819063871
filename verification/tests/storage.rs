use duskterm::storage::{
    normalize_command_knowledge_entry, normalize_command_knowledge_entry_at, normalize_mode, normalize_optional_text,
    normalize_tunnel_config, normalize_tunnel_config_at, CommandKnowledgeEntry, CommandKnowledgeStorageData,
    TunnelConfig,
};

fn tunnel(mode: &str) -> TunnelConfig {
    TunnelConfig {
        id: "  ".to_string(),
        session_id: " s1 ".to_string(),
        name: "   ".to_string(),
        mode: mode.to_string(),
        listen_host: " ".to_string(),
        listen_port: 8080,
        target_host: Some(" db.internal ".to_string()),
        target_port: Some(5432),
        server_alive_interval: 0,
        allow_public_bind: false,
        created_at: 0,
        updated_at: 0,
    }
}

fn entry() -> CommandKnowledgeEntry {
    CommandKnowledgeEntry {
        id: " k1 ".to_string(),
        title: " Restart ".to_string(),
        command: " systemctl restart app ".to_string(),
        trigger: Some("  ".to_string()),
        tags: vec![" ops ".to_string(), "  ".to_string(), "db".to_string()],
        description: Some(" restarts ".to_string()),
        favorite: true,
        safety_level: " dangerous ".to_string(),
        execution_policy: "whatever".to_string(),
        usage_count: 3,
        last_used_at: Some(9),
        created_at: 0,
        updated_at: 0,
        legacy_source: None,
    }
}

#[test]
fn optional_text_and_modes() {
    assert_eq!(normalize_optional_text(Some("  a b ".to_string())), Some("a b".to_string()));
    assert_eq!(normalize_optional_text(Some(" \t ".to_string())), None);
    assert_eq!(normalize_optional_text(None), None);
    assert_eq!(normalize_mode(" Local ").unwrap(), "local");
    assert_eq!(normalize_mode("DYNAMIC").unwrap(), "dynamic");
    assert_eq!(normalize_mode("socks").unwrap_err(), "Unsupported tunnel mode; use local, remote, or dynamic");
}

#[test]
fn tunnels_get_defaults_and_a_name() {
    let out = normalize_tunnel_config_at(tunnel(" Local "), None, "fresh".to_string(), 77).unwrap();
    assert_eq!(out.id, "fresh");
    assert_eq!(out.session_id, "s1");
    assert_eq!(out.name, " :8080 [ Local ]");
    assert_eq!(out.mode, "local");
    assert_eq!(out.listen_host, "127.0.0.1");
    assert_eq!(out.server_alive_interval, 30);
    assert_eq!(out.target_host.as_deref(), Some("db.internal"));
    assert_eq!(out.created_at, 77);
    assert_eq!(out.updated_at, 77);
    let kept = normalize_tunnel_config_at(tunnel("remote"), Some(5), "x".to_string(), 9).unwrap();
    assert_eq!(kept.created_at, 5);
    let dynamic = normalize_tunnel_config_at(tunnel("dynamic"), None, "x".to_string(), 9).unwrap();
    assert_eq!(dynamic.target_host, None);
    assert_eq!(dynamic.target_port, None);
}

#[test]
fn tunnel_errors_in_order() {
    let mut no_session = tunnel("local");
    no_session.session_id = " ".to_string();
    assert_eq!(
        normalize_tunnel_config_at(no_session, None, "x".to_string(), 1).unwrap_err(),
        "Tunnel config must belong to a saved session"
    );
    let mut no_port = tunnel("local");
    no_port.listen_port = 0;
    assert_eq!(normalize_tunnel_config_at(no_port, None, "x".to_string(), 1).unwrap_err(), "Tunnel listen port is required");
    let mut no_target = tunnel("remote");
    no_target.target_host = Some(" ".to_string());
    assert_eq!(
        normalize_tunnel_config_at(no_target, None, "x".to_string(), 1).unwrap_err(),
        "Target host is required for local and remote tunnels"
    );
    let mut no_target_port = tunnel("local");
    no_target_port.target_port = Some(0);
    assert_eq!(
        normalize_tunnel_config_at(no_target_port, None, "x".to_string(), 1).unwrap_err(),
        "Target port is required for local and remote tunnels"
    );
    let mut fast = tunnel("dynamic");
    fast.server_alive_interval = 3;
    assert_eq!(normalize_tunnel_config_at(fast, None, "x".to_string(), 1).unwrap().server_alive_interval, 10);
}

#[test]
fn fresh_ids_are_uuids() {
    let out = normalize_tunnel_config(tunnel("local"), None).unwrap();
    assert_eq!(out.id.len(), 36);
    assert_eq!(out.created_at, out.updated_at);
    let mut blank = entry();
    blank.id = String::new();
    let saved = normalize_command_knowledge_entry(blank).unwrap();
    assert_eq!(saved.id.len(), 36);
}

#[test]
fn knowledge_entries_are_normalised() {
    let out = normalize_command_knowledge_entry_at(entry(), "fresh".to_string(), 50).unwrap();
    assert_eq!(out.id, "k1");
    assert_eq!(out.title, "Restart");
    assert_eq!(out.command, "systemctl restart app");
    assert_eq!(out.trigger, None);
    assert_eq!(out.tags, vec!["ops".to_string(), "db".to_string()]);
    assert_eq!(out.description.as_deref(), Some("restarts"));
    assert_eq!(out.safety_level, "dangerous");
    assert_eq!(out.execution_policy, "blockDirectExecute");
    assert_eq!(out.created_at, 50);
    assert_eq!(out.updated_at, 50);
    let mut sensitive = entry();
    sensitive.safety_level = "sensitive".to_string();
    sensitive.execution_policy = " confirmBeforeExecute ".to_string();
    assert_eq!(normalize_command_knowledge_entry_at(sensitive, "f".to_string(), 1).unwrap().execution_policy, "confirmBeforeExecute");
    let mut plain = entry();
    plain.safety_level = "unknown".to_string();
    let plain = normalize_command_knowledge_entry_at(plain, "f".to_string(), 1).unwrap();
    assert_eq!(plain.safety_level, "normal");
    assert_eq!(plain.execution_policy, "insertOnly");
    let mut untitled = entry();
    untitled.title = " ".to_string();
    assert_eq!(
        normalize_command_knowledge_entry_at(untitled, "f".to_string(), 1).unwrap_err(),
        "Command knowledge title is required"
    );
    let mut empty = entry();
    empty.command = String::new();
    assert_eq!(
        normalize_command_knowledge_entry_at(empty, "f".to_string(), 1).unwrap_err(),
        "Command knowledge command is required"
    );
    let data = CommandKnowledgeStorageData::default();
    assert_eq!(data.schema_version, 1);
    assert!(data.entries.is_empty());
}
