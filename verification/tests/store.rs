use duskterm::storage::{
    duplicate_tunnel, list_tunnels, position_of, remove_tunnels_of_session, remove_with_id, replace_knowledge_entries,
    save_knowledge_entry, save_tunnel, upsert, CommandKnowledgeEntry, SessionConfig, TunnelConfig,
};

fn session(id: &str) -> SessionConfig {
    SessionConfig {
        id: id.to_string(),
        name: "n".to_string(),
        protocol: None,
        host: "h".to_string(),
        port: 22,
        username: "u".to_string(),
        auth_type: "password".to_string(),
        password: None,
        private_key_path: None,
        passphrase: None,
        remarks: None,
        group: None,
        term_type: None,
        encoding: None,
        font_size: None,
        font_family: None,
        connect_timeout: None,
        keep_alive_interval: None,
        last_connected: None,
        local_forward: None,
        remote_forward: None,
        proxy_type: None,
        proxy_host: None,
        proxy_port: None,
        proxy_auth: None,
        proxy_user: None,
        proxy_pass: None,
        jump_host: None,
        jump_port: None,
        jump_username: None,
        jump_auth_type: None,
        jump_password: None,
        jump_private_key_path: None,
        jump_passphrase: None,
        login_script: None,
        serial_path: None,
        baud_rate: None,
        data_bits: None,
        stop_bits: None,
        parity: None,
        flow_control: None,
    }
}

fn tunnel(id: &str, session_id: &str, name: &str, updated_at: u64) -> TunnelConfig {
    TunnelConfig {
        id: id.to_string(),
        session_id: session_id.to_string(),
        name: name.to_string(),
        mode: "local".to_string(),
        listen_host: "127.0.0.1".to_string(),
        listen_port: 8080,
        target_host: Some("db".to_string()),
        target_port: Some(5432),
        server_alive_interval: 30,
        allow_public_bind: false,
        created_at: 5,
        updated_at,
    }
}

fn snippet(id: &str, title: &str) -> CommandKnowledgeEntry {
    CommandKnowledgeEntry {
        id: id.to_string(),
        title: title.to_string(),
        command: "ls".to_string(),
        trigger: None,
        tags: vec![],
        description: None,
        favorite: false,
        safety_level: "safe".to_string(),
        execution_policy: "manual".to_string(),
        usage_count: 0,
        last_used_at: None,
        created_at: 0,
        updated_at: 0,
        legacy_source: None,
    }
}

fn ids<T>(items: &[T], id: impl Fn(&T) -> &str) -> Vec<String> {
    items.iter().map(|t| id(t).to_string()).collect()
}

#[test]
fn upsert_replaces_the_first_record_with_the_id_or_appends() {
    let mut sessions = vec![session("a"), session("b")];
    let mut renamed = session("b");
    renamed.name = "renamed".to_string();
    upsert(&mut sessions, renamed);
    assert_eq!(sessions.len(), 2);
    assert_eq!(sessions[1].name, "renamed");
    upsert(&mut sessions, session("c"));
    assert_eq!(ids(&sessions, |s| &s.id), vec!["a", "b", "c"]);
    assert_eq!(position_of(&sessions, "c"), Some(2));
    assert_eq!(position_of(&sessions, "z"), None);
}

#[test]
fn removal_drops_every_record_with_the_id() {
    let mut sessions = vec![session("a"), session("b"), session("a")];
    assert!(remove_with_id(&mut sessions, "a"));
    assert_eq!(ids(&sessions, |s| &s.id), vec!["b"]);
    assert!(!remove_with_id(&mut sessions, "zzz"));
    let mut tunnels = vec![tunnel("t1", "s1", "x", 1), tunnel("t2", "s2", "y", 1), tunnel("t3", "s1", "z", 1)];
    assert!(remove_tunnels_of_session(&mut tunnels, "s1"));
    assert_eq!(ids(&tunnels, |t| &t.id), vec!["t2"]);
    assert!(!remove_tunnels_of_session(&mut tunnels, "s1"));
}

#[test]
fn tunnels_are_listed_newest_first_then_by_name() {
    let tunnels = vec![
        tunnel("t1", "s1", "beta", 10),
        tunnel("t2", "s2", "alpha", 30),
        tunnel("t3", "s1", "alpha", 10),
        tunnel("t4", "s1", "gamma", 20),
    ];
    let all = list_tunnels(&tunnels, None);
    assert_eq!(ids(&all, |t| &t.id), vec!["t2", "t4", "t3", "t1"]);
    let s1 = list_tunnels(&tunnels, Some(" s1 ".to_string()));
    assert_eq!(ids(&s1, |t| &t.id), vec!["t4", "t3", "t1"]);
    assert_eq!(list_tunnels(&tunnels, Some("  ".to_string())).len(), 4);
}

#[test]
fn a_tunnel_is_saved_only_for_a_saved_session() {
    let sessions = vec![session("s1")];
    let mut tunnels = vec![tunnel("t1", "s1", "old", 1)];
    let err = save_tunnel(&sessions, &mut tunnels, tunnel("t9", "gone", "x", 0)).unwrap_err();
    assert_eq!(err, "Saved session for tunnel config no longer exists");
    let mut changed = tunnel("t1", "s1", "new name", 0);
    changed.created_at = 999;
    let saved = save_tunnel(&sessions, &mut tunnels, changed).unwrap();
    assert_eq!(saved.created_at, 5);
    assert_eq!(tunnels.len(), 1);
    assert_eq!(tunnels[0].name, "new name");
    let mut invalid = tunnel("t2", "s1", "x", 0);
    invalid.listen_port = 0;
    assert_eq!(save_tunnel(&sessions, &mut tunnels, invalid).unwrap_err(), "Tunnel listen port is required");
    assert_eq!(tunnels.len(), 1);
}

#[test]
fn duplicating_a_tunnel_adds_a_named_copy() {
    let mut tunnels = vec![tunnel("t1", "s1", "web", 1)];
    let copy = duplicate_tunnel(&mut tunnels, "t1").unwrap();
    assert_eq!(copy.name, "web Copy");
    assert_ne!(copy.id, "t1");
    assert_eq!(copy.id.len(), 36);
    assert_eq!(copy.session_id, "s1");
    assert_eq!(tunnels.len(), 2);
    assert_eq!(duplicate_tunnel(&mut tunnels, "nope").unwrap_err(), "Tunnel config not found");
}

#[test]
fn snippets_are_saved_and_replaced_normalised() {
    let mut entries = vec![snippet("k1", "one")];
    let saved = save_knowledge_entry(&mut entries, snippet("k1", " renamed ")).unwrap();
    assert_eq!(saved.title, "renamed");
    assert_eq!(entries.len(), 1);
    assert_eq!(entries[0].title, "renamed");
    assert!(save_knowledge_entry(&mut entries, snippet("k2", "  ")).is_err());
    let data = replace_knowledge_entries(&[snippet("a", "x"), snippet("b", "y")]).unwrap();
    assert_eq!(data.schema_version, 1);
    assert_eq!(ids(&data.entries, |e| &e.id), vec!["a", "b"]);
    assert_eq!(
        replace_knowledge_entries(&[snippet("a", "x"), snippet("b", " ")]).unwrap_err(),
        "Command knowledge title is required"
    );
}

#[test]
fn importing_sessions_adds_new_ids_with_secrets_sealed() {
    let key = [3u8; 32];
    let mut existing = vec![session("a")];
    let mut fresh = session("b");
    fresh.password = Some("pw".to_string());
    let imported = vec![session("a"), session(""), fresh, session("c")];
    let added = duskterm::secrets::import_sessions(&key, &mut existing, &imported).unwrap();
    assert_eq!(added, 2);
    assert_eq!(ids(&existing, |s| &s.id), vec!["a", "b", "c"]);
    let sealed = existing[1].password.clone().unwrap();
    assert_ne!(sealed, "pw");
    assert_eq!(duskterm::secrets::decrypt(&sealed, &key).unwrap(), "pw");
    let err = duskterm::secrets::import_sessions(&key, &mut existing, &[session("a"), session("")]).unwrap_err();
    assert_eq!(err, "未添加新会话（2 个重复或无效）");
    assert_eq!(existing.len(), 3);
}

#[test]
fn exports_carry_decrypted_secrets() {
    let key = [5u8; 32];
    let mut stored = session("x");
    stored.name = "prod".to_string();
    stored.password = Some(duskterm::secrets::encrypt("secret", &key));
    let out = duskterm::secrets::decrypt_sessions_for_export(&key, &[stored.clone()]).unwrap();
    assert_eq!(out[0].password.as_deref(), Some("secret"));
    let err = duskterm::secrets::decrypt_sessions_for_export(&[6u8; 32], &[stored]).unwrap_err();
    assert_eq!(err, "Export failed: could not decrypt credentials for session 'prod': aead::Error");
}

#[test]
fn importing_snippets_skips_known_and_blank_ids() {
    let mut existing = vec![snippet("k1", "one")];
    let imported = vec![snippet("k1", "dup"), snippet(" ", "blank"), snippet(" k2 ", "two"), snippet("k2", "again"), snippet("k3", "three")];
    let added = duskterm::storage::import_knowledge(&mut existing, &imported).unwrap();
    assert_eq!(ids(&added, |e| &e.id), vec!["k2", "k3"]);
    assert_eq!(ids(&existing, |e| &e.id), vec!["k1", "k2", "k3"]);
    let mut again = vec![snippet("k1", "one")];
    assert_eq!(
        duskterm::storage::import_knowledge(&mut again, &[snippet("n", "ok"), snippet("m", " ")]).unwrap_err(),
        "Command knowledge title is required"
    );
    assert_eq!(again.len(), 1);
}
