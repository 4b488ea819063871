use duskterm::telnet_login::{keepalive_due, telnet_nop, LoginSend, TelnetLogin};

#[test]
fn prompts_are_answered_in_turn() {
    let mut login = TelnetLogin::new("  admin ", Some("pw".to_string()), Some(" show run ".to_string()));
    assert_eq!(login.username, "admin");
    assert!(!login.sent_username && !login.sent_password && !login.script_sent);
    assert!(login.observe(b"Welcome to the router\r\n").is_empty());
    assert_eq!(login.observe(b"Login: "), vec![LoginSend::Username(b"admin\r\n".to_vec())]);
    assert_eq!(
        login.observe(b"PASSWORD:"),
        vec![LoginSend::Password(b"pw\r\n".to_vec()), LoginSend::Script(b"show run\r\n".to_vec())]
    );
    assert!(login.sent_username && login.sent_password && login.script_sent);
    assert!(login.observe(b"login: password:").is_empty());
}

#[test]
fn a_username_prompt_also_counts() {
    let mut login = TelnetLogin::new("root", None, None);
    assert!(login.sent_password);
    assert_eq!(login.observe(b"Username:"), vec![LoginSend::Username(b"root\r\n".to_vec())]);
    assert!(login.script_sent);
}

#[test]
fn without_credentials_the_script_goes_when_idle() {
    let mut login = TelnetLogin::new("", None, Some("echo hi".to_string()));
    assert_eq!(login.on_idle(), Some(b"echo hi\r\n".to_vec()));
    assert_eq!(login.on_idle(), None);
    let mut with_user = TelnetLogin::new("u", None, Some("x".to_string()));
    assert_eq!(with_user.on_idle(), None);
    assert!(!with_user.script_sent);
}

#[test]
fn only_the_last_800_bytes_are_searched() {
    let mut login = TelnetLogin::new("u", Some("p".to_string()), None);
    assert!(login.observe(b"login").is_empty());
    let filler = vec![b'x'; 900];
    assert!(login.can_take(&filler));
    assert!(login.observe(&filler).is_empty());
    assert_eq!(login.recent.len(), 800);
    assert!(login.observe(b":").is_empty());
    let mut wide = TelnetLogin::new("u", None, None);
    let text = format!("{}a", "é".repeat(400));
    assert!(!wide.can_take(text.as_bytes()));
}

#[test]
fn keepalives_follow_the_interval() {
    assert_eq!(telnet_nop(), vec![255, 241]);
    assert!(!keepalive_due(0, u128::MAX));
    assert!(!keepalive_due(30, 29_999_999_999));
    assert!(keepalive_due(30, 30_000_000_000));
}
