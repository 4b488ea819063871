use duskterm::sftp_files::check_pre_commit;
use duskterm::sftp_files::{
    cache_key, detect_line_ending, effective_transfer_size, effective_transfer_window, ensure_editable_text_path,
    ensure_inline_editor_file_size, file_entry_from_attrs, is_probably_binary, is_supported_text_path,
    mutation_lock_key, normalize_editor_newlines, normalize_lock_path, progress_due, slice_paged_entries,
    sort_file_entries, text_language_for_path, FileAttrs,
};
use duskterm::clock::{current_timestamp_ms, epoch_millis_after, millis_to_timestamp, millis_to_u64_saturating, millis_to_u64_truncating, now_millis};
use std::collections::HashMap;

#[test]
fn backend_file_type_mapping_is_authoritative() {
    assert_eq!(text_language_for_path("/opt/app/application.properties"), Some("ini"));
    assert_eq!(text_language_for_path("/opt/app/Dockerfile"), Some("shell"));
    assert_eq!(text_language_for_path("/opt/app/.env.production"), Some("shell"));
    assert_eq!(text_language_for_path("/opt/app/release.jar"), None);
}

#[test]
fn languages_by_name_and_extension() {
    assert_eq!(text_language_for_path("/etc/hosts"), Some("plaintext"));
    assert_eq!(text_language_for_path("/srv/CMakeLists.txt"), Some("plaintext"));
    assert_eq!(text_language_for_path("/srv/App.TSX"), Some("typescript"));
    assert_eq!(text_language_for_path("/srv/unit.service/"), Some("ini"));
    assert_eq!(text_language_for_path("/srv/.."), None);
    assert_eq!(text_language_for_path("   "), None);
    assert_eq!(text_language_for_path("/srv/.bashrc"), Some("shell"));
    assert_eq!(text_language_for_path("/srv/noext"), None);
    assert!(is_supported_text_path("a.yaml"));
    assert!(!is_supported_text_path("a.png"));
    assert!(ensure_editable_text_path("a.md").is_ok());
    assert_eq!(
        ensure_editable_text_path("a.zip").unwrap_err(),
        "Unsupported file type: current editor only supports text, code, and config files"
    );
}

#[test]
fn binary_detection() {
    assert!(is_probably_binary(b"abc\0def"));
    assert!(!is_probably_binary(b""));
    assert!(!is_probably_binary(b"plain text\r\n\twith tabs\x0c"));
    assert!(is_probably_binary(&[1, 2, 3, 65, 66, 67, 68, 69, 70]));
    assert!(!is_probably_binary(&[1, 65, 66, 67, 68, 69, 70, 71]));
    let mut late = vec![b'a'; 4096];
    late.extend_from_slice(&[1; 4096]);
    assert!(!is_probably_binary(&late));
}

#[test]
fn transfer_sizes_and_windows() {
    assert_eq!(effective_transfer_window(0), 64);
    assert_eq!(effective_transfer_window(256 * 1024), 64);
    assert_eq!(effective_transfer_window(1024 * 1024), 16);
    assert_eq!(effective_transfer_window(3 * 1024 * 1024), 8);
    assert_eq!(effective_transfer_window(5 * 1024 * 1024 / 2), 8);
    assert_eq!(effective_transfer_window(1000000), 17);
    assert_eq!(effective_transfer_size(Some(65536), Some(34000), 32768), 32976);
    assert_eq!(effective_transfer_size(None, Some(100), 32768), 1);
    assert_eq!(effective_transfer_size(None, None, 32768), 32768);
    assert_eq!(effective_transfer_size(Some(10_000_000), None, 1), 262144);
    assert_eq!(effective_transfer_size(Some(0), None, 1), 1);
    assert!(progress_due(0, 2 * 1024 * 1024));
    assert!(progress_due(120_000_000, 0));
    assert!(!progress_due(119_999_999, 2 * 1024 * 1024 - 1));
}

#[test]
fn keys_newlines_and_limits() {
    assert_eq!(cache_key("s1", "/var/log"), "s1::/var/log");
    assert_eq!(normalize_lock_path("/var/log///"), "/var/log");
    assert_eq!(normalize_lock_path("///"), "///");
    assert_eq!(mutation_lock_key("s1", "/tmp/"), "s1::/tmp");
    assert_eq!(normalize_editor_newlines("a\r\nb\rc\n\r\r\n"), "a\nb\nc\n\n\n");
    assert_eq!(detect_line_ending("a\r\nb\r"), "crlf");
    assert_eq!(detect_line_ending("a\rb"), "cr");
    assert_eq!(detect_line_ending("a\nb"), "lf");
    assert!(ensure_inline_editor_file_size("/a", 8 * 1024 * 1024).is_ok());
    assert_eq!(
        ensure_inline_editor_file_size("/a", 8 * 1024 * 1024 + 1).unwrap_err(),
        "Inline editor limit exceeded: /a is too large (8388609 bytes). Please download it or use an external editor."
    );
}

#[test]
fn listing_entries_and_pages() {
    let mut users = HashMap::new();
    users.insert(0u32, "root".to_string());
    let groups = HashMap::new();
    let attrs = FileAttrs { is_dir: false, size: Some(12), mtime: Some(99), permissions: None, uid: Some(0), gid: Some(5) };
    let entry = file_entry_from_attrs("notes.md".to_string(), &attrs, &users, &groups);
    assert_eq!(entry.size, 12);
    assert_eq!(entry.modified, 99);
    assert_eq!(entry.permissions, 0);
    assert_eq!(entry.owner.as_deref(), Some("root"));
    assert_eq!(entry.group, None);
    assert!(entry.editable);
    assert_eq!(entry.language, "markdown");
    let dir = FileAttrs { is_dir: true, size: None, mtime: None, permissions: Some(0o755), uid: None, gid: None };
    let folder = file_entry_from_attrs("src".to_string(), &dir, &users, &groups);
    assert!(!folder.editable);
    assert_eq!(folder.language, "plaintext");

    let entries: Vec<_> = (0..5).map(|i| file_entry_from_attrs(format!("f{i}.txt"), &attrs, &users, &groups)).collect();
    let page = slice_paged_entries(&entries, 1, 3);
    assert_eq!(page.items.iter().map(|e| e.name.as_str()).collect::<Vec<_>>(), vec!["f1.txt", "f2.txt", "f3.txt"]);
    assert_eq!((page.offset, page.next_offset, page.has_more, page.total), (1, 4, true, 5));
    let last = slice_paged_entries(&entries, 9, usize::MAX);
    assert!(last.items.is_empty());
    assert_eq!((last.offset, last.next_offset, last.has_more), (5, 5, false));
}

#[test]
fn entries_sort_by_name() {
    let users = HashMap::new();
    let attrs = FileAttrs { is_dir: false, size: None, mtime: None, permissions: None, uid: None, gid: None };
    let mut entries: Vec<_> = ["b.txt", "B.txt", "a", "ä", "a.txt", "b.txt"]
        .iter()
        .map(|n| file_entry_from_attrs(n.to_string(), &attrs, &users, &users))
        .collect();
    sort_file_entries(&mut entries);
    let names: Vec<_> = entries.iter().map(|e| e.name.as_str()).collect();
    assert_eq!(names, vec!["B.txt", "a", "a.txt", "b.txt", "b.txt", "ä"]);
    let mut empty = Vec::new();
    sort_file_entries(&mut empty);
    assert!(empty.is_empty());
}

#[test]
fn clock_conversions() {
    assert_eq!(millis_to_timestamp(5), 5);
    assert_eq!(millis_to_timestamp(u128::MAX), i64::MAX);
    assert_eq!(millis_to_u64_saturating(u128::MAX), u64::MAX);
    assert_eq!(millis_to_u64_truncating((1u128 << 64) + 7), 7);
    assert!(current_timestamp_ms().unwrap() > 1_600_000_000_000);
    assert!(now_millis() > 1_600_000_000_000);
    let later = epoch_millis_after(std::time::Duration::from_secs(30));
    assert!(later >= now_millis() + 29_000);
}

#[test]
fn lock_keys_are_sorted_and_unique() {
    let paths = vec!["/b/".to_string(), "/a".to_string(), "/b".to_string(), "/a//".to_string()];
    let keys = duskterm::sftp_files::path_lock_keys("s1", &paths);
    assert_eq!(keys, vec!["s1::/a".to_string(), "s1::/b".to_string()]);
    assert!(duskterm::sftp_files::path_lock_keys("s1", &[]).is_empty());
}

#[test]
fn pre_commit_check_refuses_changed_or_created_files() {
    assert_eq!(check_pre_commit(Some(b"abc"), Ok(Some(b"abc"))), Ok(()));
    assert_eq!(
        check_pre_commit(Some(b"abc"), Ok(Some(b"abd"))),
        Err("CAS mismatch: remote file changed while saving; please reopen before saving".to_string())
    );
    assert_eq!(
        check_pre_commit(Some(b"abc"), Ok(None)),
        Err("CAS mismatch: remote file changed while saving; please reopen before saving".to_string())
    );
    assert_eq!(check_pre_commit(None, Ok(None)), Ok(()));
    assert_eq!(
        check_pre_commit(None, Ok(Some(b""))),
        Err("CAS mismatch: remote file was created while saving; please reopen before saving".to_string())
    );
    assert_eq!(
        check_pre_commit(Some(b"abc"), Err("No such file".to_string())),
        Err("Pre-commit verify Error: No such file".to_string())
    );
}
