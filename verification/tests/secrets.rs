use duskterm::secrets::{decrypt, decrypt_optional_field, decrypt_session_config, encrypt, encrypt_session_secrets};
use duskterm::storage::SessionConfig;

fn session() -> SessionConfig {
    SessionConfig {
        id: "s1".to_string(),
        name: "prod".to_string(),
        protocol: Some("ssh".to_string()),
        host: "example.com".to_string(),
        port: 22,
        username: "root".to_string(),
        auth_type: "password".to_string(),
        password: Some("hunter2".to_string()),
        private_key_path: None,
        passphrase: Some(String::new()),
        remarks: None,
        group: None,
        term_type: None,
        encoding: None,
        font_size: None,
        font_family: None,
        connect_timeout: None,
        keep_alive_interval: None,
        last_connected: None,
        local_forward: None,
        remote_forward: None,
        proxy_type: None,
        proxy_host: None,
        proxy_port: None,
        proxy_auth: None,
        proxy_user: None,
        proxy_pass: None,
        jump_host: None,
        jump_port: None,
        jump_username: None,
        jump_auth_type: None,
        jump_password: Some("密码".to_string()),
        jump_private_key_path: None,
        jump_passphrase: None,
        login_script: None,
        serial_path: None,
        baud_rate: None,
        data_bits: None,
        stop_bits: None,
        parity: None,
        flow_control: None,
    }
}

#[test]
fn secrets_round_trip() {
    let key = [7u8; 32];
    let sealed = encrypt("hunter2", &key);
    assert_ne!(sealed, "hunter2");
    assert_eq!(decrypt(&sealed, &key).unwrap(), "hunter2");
    assert_ne!(encrypt("hunter2", &key), sealed);
    assert_eq!(decrypt(&sealed, &[8u8; 32]).unwrap_err(), "aead::Error");
    assert_eq!(decrypt("AAAA", &key).unwrap_err(), "Invalid encrypted data");
    assert!(decrypt("not base64!", &key).is_err());
}

#[test]
fn session_secrets_round_trip() {
    let key = [1u8; 32];
    let stored = encrypt_session_secrets(&key, session());
    assert_ne!(stored.password.as_deref(), Some("hunter2"));
    assert_eq!(stored.passphrase.as_deref(), Some(""));
    assert_eq!(stored.proxy_pass, None);
    assert_eq!(stored.host, "example.com");
    let back = decrypt_session_config(&key, stored).unwrap();
    assert_eq!(back.password.as_deref(), Some("hunter2"));
    assert_eq!(back.passphrase.as_deref(), Some(""));
    assert_eq!(back.jump_password.as_deref(), Some("密码"));
    let mut broken = session();
    broken.password = Some("AAAA".to_string());
    assert_eq!(decrypt_session_config(&key, broken).unwrap_err(), "Invalid encrypted data");
    let mut field = Some(String::new());
    assert!(decrypt_optional_field(&mut field, &key).is_ok());
    assert_eq!(field, Some(String::new()));
}
