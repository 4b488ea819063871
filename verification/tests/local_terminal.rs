use duskterm::local_terminal::{
    append_output_chunk, fallback_unix_shell, find_profile, shell_profiles, initial_dimension, login_args, requested_profile_id, shell_display_name,
    LocalShellProfile, DEFAULT_COLS,
};

#[test]
fn output_batch_keeps_chunks_within_the_target_size() {
    let mut batch = vec![1; 10 * 1024];
    let ready = append_output_chunk(&mut batch, vec![2; 8 * 1024]).expect("the existing batch should be ready");

    assert_eq!(ready.len(), 10 * 1024);
    assert_eq!(batch.len(), 8 * 1024);
    assert!(ready.iter().all(|byte| *byte == 1));
    assert!(batch.iter().all(|byte| *byte == 2));
}

#[test]
fn output_batch_combines_small_chunks_without_reordering() {
    let mut batch = vec![1, 2];
    let ready = append_output_chunk(&mut batch, vec![3, 4]);

    assert!(ready.is_none());
    assert_eq!(batch, vec![1, 2, 3, 4]);
}

#[test]
fn an_empty_batch_takes_any_chunk() {
    let mut batch = Vec::new();
    assert!(append_output_chunk(&mut batch, vec![7; 20 * 1024]).is_none());
    assert_eq!(batch.len(), 20 * 1024);
    let mut exact = vec![0; 16 * 1024 - 1];
    assert!(append_output_chunk(&mut exact, vec![1]).is_none());
    assert!(append_output_chunk(&mut exact, vec![2]).is_some());
    assert_eq!(exact, vec![2]);
}

#[test]
fn shell_names_and_login_flags() {
    assert_eq!(shell_display_name("/bin/bash"), "Bash");
    assert_eq!(shell_display_name("/usr/local/bin/fish/"), "Fish");
    assert_eq!(shell_display_name("/"), "Shell");
    assert_eq!(shell_display_name("/opt/ßh"), "SSh");
    assert_eq!(login_args("/bin/bash"), vec!["--login".to_string()]);
    assert_eq!(login_args("/usr/bin/FISH"), vec!["--login".to_string()]);
    assert_eq!(login_args("/bin/zsh"), vec!["-l".to_string()]);
    assert!(login_args("/bin/sh").is_empty());
}

#[test]
fn terminal_sizes_and_profiles() {
    assert_eq!(initial_dimension(None, DEFAULT_COLS), 80);
    assert_eq!(initial_dimension(Some(1), 80), 2);
    assert_eq!(initial_dimension(Some(5000), 80), 1000);
    assert_eq!(requested_profile_id(&Some("  zsh ".to_string()), "default"), "zsh");
    assert_eq!(requested_profile_id(&Some("  ".to_string()), "default"), "default");
    assert_eq!(requested_profile_id(&None, "default"), "default");
    let profiles = vec![
        LocalShellProfile { id: "powershell".to_string(), name: "PowerShell".to_string(), executable: "p".to_string() },
        LocalShellProfile { id: "cmd".to_string(), name: "cmd".to_string(), executable: "c".to_string() },
    ];
    assert_eq!(find_profile(&profiles, "cmd"), Some(1));
    assert_eq!(find_profile(&profiles, "bash"), None);
}

#[test]
fn unix_shell_profiles() {
    assert_eq!(fallback_unix_shell(false, &[false, true, true]), "/bin/sh");
    assert_eq!(fallback_unix_shell(true, &[true, true, true]), "/bin/zsh");
    assert_eq!(fallback_unix_shell(false, &[false, false, true]), "/usr/bin/sh");
    assert_eq!(fallback_unix_shell(false, &[false, false, false]), "/bin/sh");
    let result = shell_profiles("/usr/bin/zsh", false);
    assert_eq!(result.platform, "linux");
    assert_eq!(result.default_profile_id, "default");
    assert_eq!(result.profiles.len(), 1);
    assert_eq!(result.profiles[0].name, "Zsh");
    assert_eq!(result.profiles[0].executable, "/usr/bin/zsh");
    assert_eq!(shell_profiles("/bin/bash", true).platform, "macos");
}

#[test]
fn pty_sizes_and_close_reasons() {
    assert_eq!(duskterm::local_terminal::pty_dimension(0), 1);
    assert_eq!(duskterm::local_terminal::pty_dimension(80), 80);
    assert_eq!(duskterm::local_terminal::pty_dimension(5000), 1000);
    assert_eq!(duskterm::local_terminal::local_close_reason(Some(0)), "本地 Shell 已退出，退出码 0");
    assert_eq!(duskterm::local_terminal::local_close_reason(Some(127)), "本地 Shell 已退出，退出码 127");
    assert_eq!(duskterm::local_terminal::local_close_reason(None), "本地 Shell 已关闭");
}
