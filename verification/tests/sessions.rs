use duskterm::negotiation::{
    endpoint_cache_key, host_key_algorithms_for, should_retry_with_legacy, validate_private_key_algorithm,
    ConnectFailure, HostKeyAlgorithm, NegotiationProfile, PrivateKeyKind, SshAppState,
};
use duskterm::session_state::{
    accepts_terminal_input, disconnect_outcome, jump_parent_session_id, normalized_session_id, ChannelLifecycle, HostkeyDecisions, LifecycleState,
    InputDisposition, SessionCore, TerminalCause, TransferState,
};

#[test]
fn modern_profile_excludes_ssh_rsa_sha1() {
    let modern = host_key_algorithms_for(NegotiationProfile::Modern);
    assert!(modern.iter().any(|algorithm| *algorithm == HostKeyAlgorithm::RsaSha512));
    assert!(modern.iter().any(|algorithm| *algorithm == HostKeyAlgorithm::RsaSha256));
    assert!(!modern.iter().any(|algorithm| *algorithm == HostKeyAlgorithm::RsaSha1));
}

#[test]
fn legacy_retry_only_applies_to_modern_negotiation_failures() {
    let retryable = ConnectFailure::NoCommonHostKeyAlgorithm;
    assert!(should_retry_with_legacy(NegotiationProfile::Modern, retryable));
    assert!(!should_retry_with_legacy(NegotiationProfile::LegacyRsaSha1, retryable));
}

#[test]
fn rsa_private_keys_are_allowed() {
    assert!(validate_private_key_algorithm(PrivateKeyKind::Rsa, "rsa-sha2-512").is_ok());
}

#[test]
fn other_private_keys_are_refused_by_name() {
    assert_eq!(
        validate_private_key_algorithm(PrivateKeyKind::Dsa, "ssh-dss").unwrap_err(),
        "Key type ssh-dss not allowed. Supported private keys: Ed25519, ECDSA, RSA."
    );
    assert!(validate_private_key_algorithm(PrivateKeyKind::Ed25519, "ssh-ed25519").is_ok());
}

#[test]
fn legacy_profile_adds_only_rsa_sha1() {
    let legacy = host_key_algorithms_for(NegotiationProfile::LegacyRsaSha1);
    let modern = host_key_algorithms_for(NegotiationProfile::Modern);
    assert_eq!(legacy.len(), modern.len() + 1);
    assert!(legacy.contains(&HostKeyAlgorithm::RsaSha1));
    assert!(!should_retry_with_legacy(NegotiationProfile::Modern, ConnectFailure::Timeout));
    assert!(should_retry_with_legacy(NegotiationProfile::Modern, ConnectFailure::WrongServerSignature));
}

#[test]
fn endpoint_keys_ignore_case_and_padding() {
    assert_eq!(endpoint_cache_key("  Example.COM ", 22), "example.com:22");
    let mut state = SshAppState::new();
    assert_eq!(state.preferred_profile_for_endpoint("host", 22), NegotiationProfile::Modern);
    state.remember_successful_profile("HOST ", 22, NegotiationProfile::LegacyRsaSha1);
    assert_eq!(state.preferred_profile_for_endpoint("host", 22), NegotiationProfile::LegacyRsaSha1);
    assert_eq!(state.preferred_profile_for_endpoint("host", 2222), NegotiationProfile::Modern);
}

#[test]
fn first_terminal_cause_is_kept() {
    let mut lifecycle = ChannelLifecycle::new();
    assert!(lifecycle.can_write());
    assert!(lifecycle.terminate(TerminalCause::ExitStatus(3)));
    assert!(!lifecycle.terminate(TerminalCause::RemoteEof));
    assert!(!lifecycle.can_write());
    assert_eq!(lifecycle.cause(), Some(&TerminalCause::ExitStatus(3)));
    assert_eq!(TerminalCause::ExitStatus(3).reason(), "remote sent exit status 3");
    assert_eq!(
        TerminalCause::TransportError("reset".to_string()).reason(),
        "SSH channel transport error: reset"
    );
}

#[test]
fn transfers_are_cancelled_by_id() {
    let mut transfers = TransferState::new();
    assert_eq!(transfers.cancel("a").unwrap_err(), "No active transfer found for this ID");
    transfers.register_cancel_token("a");
    transfers.register_cancel_token("b");
    assert_eq!(transfers.is_cancelled("a"), Some(false));
    assert!(transfers.cancel("a").is_ok());
    assert_eq!(transfers.is_cancelled("a"), Some(true));
    assert_eq!(transfers.is_cancelled("b"), Some(false));
    transfers.cleanup("a");
    assert_eq!(transfers.is_cancelled("a"), None);
    transfers.cancel_all();
    assert_eq!(transfers.is_cancelled("b"), Some(true));
}

#[test]
fn jump_sessions_and_ids() {
    assert_eq!(jump_parent_session_id("session-1::jump"), Some("session-1".to_string()));
    assert_eq!(jump_parent_session_id("a::jump::jump"), Some("a".to_string()));
    assert_eq!(jump_parent_session_id("::jump"), None);
    assert_eq!(jump_parent_session_id("session-1"), None);
    assert_eq!(jump_parent_session_id("x::jum"), None);
    assert_eq!(normalized_session_id(Some("  s1 ".to_string())), Some("s1".to_string()));
    assert_eq!(normalized_session_id(Some(" ".to_string())), None);
}

#[test]
fn hostkey_answers_go_to_the_waiting_session() {
    let mut decisions = HostkeyDecisions::new();
    assert_eq!(decisions.resolve("session-1").unwrap_err(), "No pending host key confirmation");
    decisions.set_waiting("session-1", true);
    assert_eq!(decisions.resolve("session-1::jump").unwrap(), "session-1");
    assert!(decisions.resolve("session-1::jump").is_err());
    decisions.set_waiting("session-1::jump", true);
    assert_eq!(decisions.resolve("session-1::jump").unwrap(), "session-1::jump");
    decisions.set_waiting("session-2", true);
    assert_eq!(decisions.resolve("session-2").unwrap(), "session-2");
    assert!(decisions.resolve("session-2").is_err());
}

#[test]
fn session_core_follows_the_actor() {
    let mut core = SessionCore::new();
    assert_eq!(core.require_ssh().unwrap_err(), "Session not connected");
    assert_eq!(core.require_sftp().unwrap_err(), "SFTP Session not found");
    assert_eq!(core.require_monitoring().unwrap_err(), "SSH session not available for monitoring");
    core.begin_connect();
    assert_eq!(core.lifecycle, LifecycleState::Starting);
    assert!(core.terminal.attached);
    core.finish_connect(false);
    assert_eq!(core.lifecycle, LifecycleState::Error);
    core.begin_connect();
    core.finish_connect(true);
    assert_eq!(core.lifecycle, LifecycleState::Active);
    assert!(core.require_ssh().is_ok());
    core.sftp_connected = true;
    core.register_transfer("t1");
    core.register_transfer("t2");
    assert!(core.cancel_transfer("t1").is_ok());
    assert!(core.cancel_transfer("t9").is_err());
    core.disconnect_sftp();
    assert!(!core.sftp_connected);
    assert_eq!(core.transfers.is_cancelled("t2"), Some(true));
    core.register_transfer("t3");
    core.disconnect();
    assert_eq!(core.lifecycle, LifecycleState::Closed);
    assert!(!core.terminal.attached);
    assert_eq!(core.transfers.is_cancelled("t3"), Some(true));
    assert_eq!(
        disconnect_outcome(Ok(()), Err("ssh".to_string()), Err("tunnel".to_string())),
        Err("ssh".to_string())
    );
    assert_eq!(disconnect_outcome(Err("sftp".to_string()), Ok(()), Ok(())), Err("sftp".to_string()));
    assert_eq!(disconnect_outcome(Ok(()), Ok(()), Err("tunnel".to_string())), Err("tunnel".to_string()));
    assert_eq!(disconnect_outcome(Ok(()), Ok(()), Ok(())), Ok(()));
}

#[test]
fn terminal_input_is_refused_during_transfers_and_after_close() {
    let mut lifecycle = duskterm::session_state::ChannelLifecycle::new();
    assert_eq!(duskterm::session_state::check_terminal_input(false, &lifecycle), Ok(()));
    assert_eq!(duskterm::session_state::check_terminal_input(true, &lifecycle), Err("ZMODEM 传输期间终端输入已暂停".to_string()));
    lifecycle.terminate(duskterm::session_state::TerminalCause::ExitStatus(3));
    assert_eq!(
        duskterm::session_state::check_terminal_input(false, &lifecycle),
        Err("Terminal channel is closed: remote sent exit status 3".to_string())
    );
    assert_eq!(duskterm::session_state::check_serial_input(false), Ok(()));
    assert_eq!(duskterm::session_state::check_serial_input(true), Err("串口文件发送期间不能插入普通数据".to_string()));
}

#[test]
fn shell_channels_need_a_root_session_and_unique_ids() {
    let mut core = SessionCore::new();
    assert_eq!(core.check_open_shell_channel("c1"), Err("Root SSH session is not connected".to_string()));
    core.begin_connect();
    core.finish_connect(true);
    assert_eq!(core.check_open_shell_channel("c1"), Ok(()));
    core.shell_channel_opened("c1");
    assert_eq!(core.check_open_shell_channel("c1"), Err("Shell channel already exists".to_string()));
    assert_eq!(core.require_shell_channel("c1"), Ok(()));
    assert_eq!(core.require_shell_channel("c2"), Err("Shell channel not found".to_string()));
    assert!(core.close_shell_channel("c1"));
    assert!(!core.close_shell_channel("c1"));
    assert_eq!(core.require_shell_channel("c1"), Err("Shell channel not found".to_string()));
    core.shell_channel_opened("c2");
    core.disconnect();
    assert_eq!(core.require_shell_channel("c2"), Err("Shell channel not found".to_string()));
}

#[test]
fn oversized_terminal_input_is_dropped() {
    assert_eq!(accepts_terminal_input(false, 65536), InputDisposition::Write);
    assert_eq!(accepts_terminal_input(false, 65537), InputDisposition::DropTooLarge);
    assert_eq!(accepts_terminal_input(true, 10), InputDisposition::Ignore);
    assert_eq!(accepts_terminal_input(false, 0), InputDisposition::Write);
}
