use duskterm::auth::{auth_outcome, choose_auth_method, key_load_error, AuthMethod};

fn s(v: &str) -> Option<String> {
    Some(v.to_string())
}

#[test]
fn a_key_path_wins_over_a_password() {
    assert_eq!(
        choose_auth_method(s("/home/u/.ssh/id_ed25519"), s("secret"), s("  ")),
        Ok(AuthMethod::PublicKey { key_path: "/home/u/.ssh/id_ed25519".to_string(), passphrase: None })
    );
    assert_eq!(
        choose_auth_method(s("k"), None, s("pp")),
        Ok(AuthMethod::PublicKey { key_path: "k".to_string(), passphrase: s("pp") })
    );
}

#[test]
fn a_blank_key_path_falls_back_to_the_password() {
    assert_eq!(choose_auth_method(s("   "), s("pw"), None), Ok(AuthMethod::Password("pw".to_string())));
    assert_eq!(choose_auth_method(None, s(" \t"), None), Err("Empty password not allowed".to_string()));
    assert_eq!(choose_auth_method(None, None, s("x")), Err("No authentication method provided".to_string()));
}

#[test]
fn key_and_server_errors_are_explained() {
    assert_eq!(
        key_load_error(false, "bad"),
        "Private key could not be loaded; an encrypted key may require a passphrase: bad"
    );
    assert_eq!(key_load_error(true, "bad"), "Failed to load private key: bad");
    assert_eq!(auth_outcome(true, false, "x"), Ok(()));
    assert_eq!(
        auth_outcome(false, true, "[PublicKey]"),
        Err("Authentication rejected by server (partial_success=true, remaining_methods=[PublicKey])".to_string())
    );
}
