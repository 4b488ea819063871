use duskterm::fileio::{check_save_path, desktop_pet_data_url, desktop_pet_extension, desktop_pet_file_name, permissions_need_tightening};
use duskterm::native_drag::{native_drag_capabilities, validate_local_paths, CompletionState};
use duskterm::sftp_files::SftpStreamCompletion;
use duskterm::terminal_transfer::{
    collision_candidate, map_direction, recovery_terminal_text, DownloadCollisionPolicy, TerminalTransferDirection,
    TerminalTransferSelection, WireBuffer,
};
use duskterm::zmodem::TransferDirection;

#[test]
fn selections_know_their_direction() {
    let upload = TerminalTransferSelection::Upload { paths: vec!["/tmp/a".to_string()] };
    let download = TerminalTransferSelection::Download {
        directory: "/tmp".to_string(),
        collision_policy: DownloadCollisionPolicy::default(),
    };
    assert_eq!(upload.direction(), TerminalTransferDirection::Upload);
    assert_eq!(download.direction(), TerminalTransferDirection::Download);
    assert_eq!(DownloadCollisionPolicy::default(), DownloadCollisionPolicy::AutoRename);
    assert_eq!(map_direction(TransferDirection::Download), TerminalTransferDirection::Download);
}

#[test]
fn collision_names() {
    assert_eq!(collision_candidate("report.tar.gz", 1), "report.tar (1).gz");
    assert_eq!(collision_candidate("README", 12), "README (12)");
    assert_eq!(collision_candidate(".bashrc", 2), ".bashrc (2)");
    assert_eq!(collision_candidate("", 3), "download (3)");
}

#[test]
fn recovery_text_drops_control_bytes_and_headers() {
    assert_eq!(recovery_terminal_text(b"\x07ok\r\nprompt> "), b"ok\r\nprompt> ".to_vec());
    assert_eq!(recovery_terminal_text("é\x00".as_bytes()), "é".as_bytes().to_vec());
    assert_eq!(recovery_terminal_text(b"tail **"), b"tail **".to_vec());
}

#[test]
fn wire_buffer_keeps_unread_bytes() {
    let mut wire = WireBuffer::new();
    wire.push_wire(&[1; 5000]);
    wire.push_wire(&[2, 3]);
    wire.consume(4999);
    wire.compact_wire_buffer();
    assert_eq!(wire.unread_len(), 3);
    assert_eq!(wire.take_remaining_wire(), vec![1, 2, 3]);
    assert_eq!(wire.unread_len(), 0);
}

#[test]
fn completion_is_reported_once() {
    let mut state = CompletionState::new();
    assert_eq!(state.data_consumed(), None);
    assert_eq!(state.drop_finished(true, None), Some(SftpStreamCompletion::Consumed));
    assert_eq!(state.failed("late".to_string()), None);
    assert_eq!(state.cancelled(), None);

    let mut refused = CompletionState::new();
    assert_eq!(refused.drop_finished(false, None), Some(SftpStreamCompletion::Cancelled));
    let mut failed = CompletionState::new();
    assert_eq!(
        failed.drop_finished(false, Some("denied".to_string())),
        Some(SftpStreamCompletion::Failed("denied".to_string()))
    );

    let mut pending = CompletionState::new();
    pending.start_operation();
    assert!(pending.in_operation());
    assert_eq!(pending.data_consumed(), None);
    assert_eq!(pending.drop_finished(true, None), None);
    assert_eq!(
        pending.end_operation(false, None),
        Some(SftpStreamCompletion::Failed("Windows 文件拖放操作失败".to_string()))
    );
    let mut ok = CompletionState::new();
    ok.set_async_mode(true);
    assert!(ok.async_mode());
    ok.start_operation();
    ok.data_consumed();
    ok.drop_finished(true, None);
    assert_eq!(ok.end_operation(true, None), Some(SftpStreamCompletion::Consumed));
}

#[test]
fn drag_paths_and_capabilities() {
    assert_eq!(validate_local_paths(vec![], &[]).unwrap_err(), "没有可拖动的本地文件");
    assert_eq!(
        validate_local_paths(vec!["/a".to_string(), "b".to_string()], &[false, true]).unwrap_err(),
        "拖动路径不存在: /a"
    );
    assert_eq!(
        validate_local_paths(vec!["/a".to_string(), "b".to_string()], &[true, true]).unwrap_err(),
        "拖动路径必须是绝对路径: b"
    );
    assert_eq!(validate_local_paths(vec!["/a".to_string()], &[true]).unwrap(), vec!["/a".to_string()]);
    let caps = native_drag_capabilities(true);
    assert!(caps.local_files && caps.local_directories && caps.remote_virtual_files);
    assert!(!native_drag_capabilities(false).remote_virtual_files);
}

#[test]
fn desktop_pet_assets() {
    assert_eq!(desktop_pet_extension(Some(" PNG ")).unwrap(), "png");
    assert_eq!(desktop_pet_extension(Some("  ")).unwrap_err(), "无法识别资源文件扩展名");
    assert_eq!(desktop_pet_extension(None).unwrap_err(), "无法识别资源文件扩展名");
    assert_eq!(desktop_pet_file_name("wave hand!", "id-1", "gif"), "wavehand-id-1.gif");
    assert_eq!(desktop_pet_data_url("png", b"hi"), "data:image/png;base64,aGk=");
    assert_eq!(desktop_pet_data_url("bin", b""), "data:application/octet-stream;base64,");
    assert!(check_save_path("/tmp/notes.txt").is_ok());
    assert!(check_save_path("/tmp/..notes").is_ok());
    assert_eq!(check_save_path("/tmp/../etc/passwd").unwrap_err(), "路径包含非法字符");
    assert!(check_save_path("..").is_err());
}

#[test]
fn upload_and_download_file_ends() {
    let skipped = duskterm::terminal_transfer::upload_file_end(100, 0);
    assert_eq!((skipped.current, skipped.status, skipped.phase), (0, "skipped", "skipped"));
    assert_eq!(skipped.error.as_deref(), Some("远端未请求文件内容，通常是同名目标已经存在"));
    let done = duskterm::terminal_transfer::upload_file_end(100, 100);
    assert_eq!((done.current, done.status, done.phase, done.error), (100, "success", "completed", None));
    let empty = duskterm::terminal_transfer::upload_file_end(0, 0);
    assert_eq!(empty.status, "success");
    assert_eq!(duskterm::terminal_transfer::check_download_length(0, 5), Ok(()));
    assert_eq!(duskterm::terminal_transfer::check_download_length(5, 5), Ok(()));
    assert_eq!(
        duskterm::terminal_transfer::check_download_length(10, 7),
        Err("ZMODEM 文件长度不一致：预期 10，实际 7".to_string())
    );
}

#[test]
fn secret_files_are_kept_owner_only() {
    assert!(!permissions_need_tightening(0o600));
    assert!(!permissions_need_tightening(0o100600));
    assert!(permissions_need_tightening(0o644));
    assert!(permissions_need_tightening(0o100640));
    assert!(permissions_need_tightening(0o700));
}

#[test]
fn new_desktop_pet_names_carry_a_fresh_id() {
    let a = duskterm::fileio::new_desktop_pet_file_name("idle", "png");
    let b = duskterm::fileio::new_desktop_pet_file_name("idle", "png");
    assert!(a.starts_with("idle-") && a.ends_with(".png"));
    assert_eq!(a.len(), "idle-".len() + 36 + ".png".len());
    assert_ne!(a, b);
}
