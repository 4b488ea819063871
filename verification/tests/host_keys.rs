use duskterm::host_keys::{
    host_key_error_event, host_key_step, host_key_verdict, known_host_line, HostKeyChannel, HostKeyStep,
    KnownHostCheck,
};

#[test]
fn a_known_key_is_trusted_without_asking() {
    let step = host_key_step(HostKeyChannel::Ssh, &KnownHostCheck::Matched, "s", "h", 22, "SHA256:x", "ssh-ed25519");
    assert_eq!(step, HostKeyStep::Trust);
    let verdict = host_key_verdict(&KnownHostCheck::Matched, None);
    assert!(verdict.trusted && !verdict.save_key && verdict.error.is_none());
}

#[test]
fn an_unknown_key_asks_the_user() {
    match host_key_step(HostKeyChannel::Sftp, &KnownHostCheck::Unknown, "s1", "example.org", 2222, "SHA256:abc", "ssh-rsa") {
        HostKeyStep::Ask(prompt) => {
            assert_eq!(prompt.event, "sftp-hostkey-request");
            assert_eq!(prompt.session_id, "s1");
            assert_eq!(prompt.host, "example.org");
            assert_eq!(prompt.port, 2222);
            assert_eq!(prompt.fingerprint, "SHA256:abc");
            assert_eq!(prompt.algorithm, "ssh-rsa");
            assert_eq!(prompt.confirm_command.as_deref(), Some("confirm_sftp_hostkey"));
            assert_eq!(prompt.warning, None);
        }
        HostKeyStep::Trust => panic!("an unknown key must not be trusted"),
    }
}

#[test]
fn a_changed_key_asks_with_a_warning() {
    let check = KnownHostCheck::Mismatch("key mismatch".to_string());
    match host_key_step(HostKeyChannel::Ssh, &check, "s2", "h", 22, "f", "a") {
        HostKeyStep::Ask(prompt) => {
            assert_eq!(prompt.event, "ssh-hostkey-request");
            assert_eq!(prompt.confirm_command, None);
            assert_eq!(
                prompt.warning.as_deref(),
                Some("主机密钥与已保存的不匹配！可能是代理/堡垒机或中间人攻击。\n原始错误: key mismatch")
            );
        }
        HostKeyStep::Trust => panic!("a changed key must not be trusted"),
    }
}

#[test]
fn only_a_yes_trusts_and_saves_an_unverified_key() {
    let accepted = host_key_verdict(&KnownHostCheck::Unknown, Some(true));
    assert!(accepted.trusted && accepted.save_key && accepted.report_save_failure);
    let changed = host_key_verdict(&KnownHostCheck::Mismatch("e".to_string()), Some(true));
    assert!(changed.trusted && changed.save_key && !changed.report_save_failure);
    for answer in [Some(false), None] {
        let rejected = host_key_verdict(&KnownHostCheck::Unknown, answer);
        assert!(!rejected.trusted && !rejected.save_key);
        assert_eq!(rejected.error.as_deref(), Some("Host key not trusted. Connection cancelled."));
    }
    assert_eq!(host_key_error_event(HostKeyChannel::Sftp, "s9"), "sftp-error-s9");
}

#[test]
fn known_host_lines_bracket_other_ports() {
    assert_eq!(known_host_line("example.org", 22, "ssh-ed25519 AAAA"), "example.org ssh-ed25519 AAAA");
    assert_eq!(known_host_line("10.0.0.1", 2222, "ssh-rsa BBBB"), "[10.0.0.1]:2222 ssh-rsa BBBB");
}
