use duskterm::command_history::{
    clamp_limit, entry_from_row, normalize_metadata, normalize_scope_key, plan_migration, prepare_history_record,
    validate_command, MigrationPlan, MAX_COMMAND_CHARS,
};

#[test]
fn rejects_multiline_control_and_oversized_commands() {
    assert!(validate_command("echo one\necho two".to_string()).is_err());
    assert!(validate_command("echo\u{0000}secret".to_string()).is_err());
    assert!(validate_command("x".repeat(MAX_COMMAND_CHARS + 1)).is_err());
}

#[test]
fn normalizes_bounded_metadata() {
    assert_eq!(normalize_metadata(None, 10), None);
    assert_eq!(normalize_metadata(Some("   ".to_string()), 10), None);
    assert_eq!(normalize_metadata(Some(" terminal ".to_string()), 4), Some("term".to_string()));
}

#[test]
fn command_errors_name_their_reason() {
    assert_eq!(validate_command("   ".to_string()).unwrap_err(), "Command history entry cannot be empty");
    assert_eq!(
        validate_command("x".repeat(4097)).unwrap_err(),
        "Command history entry exceeds 4096 characters"
    );
    assert_eq!(
        validate_command("a\rb".to_string()).unwrap_err(),
        "Multiline commands are not stored in command history"
    );
    assert_eq!(
        validate_command("a\u{7f}b".to_string()).unwrap_err(),
        "Command history entry contains control characters"
    );
    assert_eq!(validate_command("  ls\t-la ".to_string()).unwrap(), "ls\t-la");
    assert_eq!(validate_command("x".repeat(4096)).unwrap().len(), 4096);
}

#[test]
fn scope_keys_and_limits() {
    assert_eq!(normalize_scope_key(None), "global");
    assert_eq!(normalize_scope_key(Some("  ".to_string())), "global");
    assert_eq!(normalize_scope_key(Some(" host-a ".to_string())), "host-a");
    assert_eq!(normalize_scope_key(Some("k".repeat(300))).len(), 256);
    assert_eq!(clamp_limit(None), 1000);
    assert_eq!(clamp_limit(Some(0)), 1);
    assert_eq!(clamp_limit(Some(9000)), 5000);
    assert_eq!(clamp_limit(Some(42)), 42);
}

#[test]
fn rows_and_migrations() {
    let entry = entry_from_row(7, "ls".to_string(), -3, 12);
    assert_eq!(entry.count, 0);
    assert_eq!(entry.last_used_at, 12);
    assert_eq!(plan_migration(1).unwrap(), MigrationPlan::UpToDate);
    assert_eq!(plan_migration(0).unwrap(), MigrationPlan::CreateSchema);
    assert_eq!(plan_migration(-1).unwrap(), MigrationPlan::StampVersion);
    assert_eq!(
        plan_migration(2).unwrap_err(),
        "Command history database schema 2 is newer than supported schema 1"
    );
}

#[test]
fn records_are_prepared_with_defaults() {
    let record = prepare_history_record(
        "  Git Status ".to_string(),
        None,
        Some(" ssh ".to_string()),
        Some("h".repeat(300)),
        Some("   ".to_string()),
        None,
        Some(0),
    )
    .unwrap();
    assert_eq!(record.command, "Git Status");
    assert_eq!(record.normalized, "git status");
    assert_eq!(record.source, "terminal");
    assert_eq!(record.protocol.as_deref(), Some("ssh"));
    assert_eq!(record.host.as_ref().map(|h| h.len()), Some(255));
    assert_eq!(record.username, None);
    assert_eq!(record.scope_key, "global");
    assert_eq!(record.max, 1);
    assert!(prepare_history_record("a\nb".to_string(), None, None, None, None, None, None).is_err());
}
