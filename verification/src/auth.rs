use vstd::prelude::*;

use crate::text::{concat, owned, trim, trim_str};

verus! {

/// How a session logs in.
#[derive(Clone, Debug, PartialEq, Eq)]
pub enum AuthMethod {
    /// With the private key at this path, unlocked by the passphrase when there is one.
    PublicKey { key_path: String, passphrase: Option<String> },
    /// With this password.
    Password(String),
}

pub open spec fn blank(value: Option<Seq<char>>) -> bool {
    match value {
        Some(v) => trim(v).len() == 0,
        None => true,
    }
}

/// The way a session logs in: a key when a key path is given (a blank passphrase counts
/// as none), else a password, which may not be blank; nothing given is an error.
pub open spec fn auth_method_matches(
    result: Result<AuthMethod, String>,
    key_path: Option<String>,
    password: Option<String>,
    passphrase: Option<String>,
) -> bool {
    if !blank(crate::host_keys::opt_view(key_path)) {
        match result {
            Ok(AuthMethod::PublicKey { key_path: k, passphrase: p }) => {
                &&& Some(k) == key_path
                &&& p == if blank(crate::host_keys::opt_view(passphrase)) {
                    None
                } else {
                    passphrase
                }
            },
            _ => false,
        }
    } else {
        match password {
            Some(pw) => if trim(pw@).len() == 0 {
                (result matches Err(e) && e@ == "Empty password not allowed"@)
            } else {
                result == Ok::<AuthMethod, String>(AuthMethod::Password(pw))
            },
            None => (result matches Err(e) && e@ == "No authentication method provided"@),
        }
    }
}

fn is_blank(value: &Option<String>) -> (b: bool)
    ensures
        b == blank(crate::host_keys::opt_view(*value)),
{
    match value {
        Some(v) => trim_str(v.as_str()).as_str().is_empty(),
        None => true,
    }
}

pub fn choose_auth_method(key_path: Option<String>, password: Option<String>, passphrase: Option<String>) -> (result:
    Result<AuthMethod, String>)
    ensures
        auth_method_matches(result, key_path, password, passphrase),
{
    if !is_blank(&key_path) {
        let passphrase = if is_blank(&passphrase) {
            None
        } else {
            passphrase
        };
        match key_path {
            Some(k) => Ok(AuthMethod::PublicKey { key_path: k, passphrase }),
            None => Err(owned("No authentication method provided")),
        }
    } else {
        match password {
            Some(pw) => if trim_str(pw.as_str()).as_str().is_empty() {
                Err(owned("Empty password not allowed"))
            } else {
                Ok(AuthMethod::Password(pw))
            },
            None => Err(owned("No authentication method provided")),
        }
    }
}

/// The error of a private key that could not be loaded: without a passphrase it may be
/// an encrypted key, and the message says so.
pub fn key_load_error(passphrase_given: bool, error: &str) -> (message: String)
    ensures
        message@ == if passphrase_given {
            "Failed to load private key: "@ + error@
        } else {
            "Private key could not be loaded; an encrypted key may require a passphrase: "@ + error@
        },
{
    if passphrase_given {
        concat("Failed to load private key: ", error)
    } else {
        concat("Private key could not be loaded; an encrypted key may require a passphrase: ", error)
    }
}

/// What a login that the server answered comes to: success, or the server's rejection
/// with whether it was partly accepted and the methods it still allows.
pub fn auth_outcome(success: bool, partial_success: bool, remaining_methods: &str) -> (result: Result<(), String>)
    ensures
        success ==> result is Ok,
        !success ==> (result matches Err(e) && e@ == "Authentication rejected by server (partial_success="@ + if partial_success {
            "true"@
        } else {
            "false"@
        } + ", remaining_methods="@ + remaining_methods@ + ")"@),
{
    if success {
        return Ok(());
    }
    let a = concat(
        "Authentication rejected by server (partial_success=",
        if partial_success {
            "true"
        } else {
            "false"
        },
    );
    let b = concat(a.as_str(), ", remaining_methods=");
    let c = concat(b.as_str(), remaining_methods);
    Err(concat(c.as_str(), ")"))
}


/// A key path that is not blank always wins: the session logs in with that key, with the
/// passphrase only when it is not blank. Without a key, a password that is not blank is
/// used as given; a blank one is refused, and with neither there is nothing to log in
/// with.
pub proof fn lemma_auth_choice(
    result: Result<AuthMethod, String>,
    key_path: Option<String>,
    password: Option<String>,
    passphrase: Option<String>,
)
    requires
        auth_method_matches(result, key_path, password, passphrase),
    ensures
        !blank(crate::host_keys::opt_view(key_path)) ==> (result matches Ok(AuthMethod::PublicKey { key_path: k, passphrase: p })
            && Some(k) == key_path && (p is Some <==> !blank(crate::host_keys::opt_view(passphrase)))
            && (p is Some ==> p == passphrase)),
        blank(crate::host_keys::opt_view(key_path)) ==> match password {
            Some(pw) => if trim(pw@).len() == 0 {
                result matches Err(e) && e@ == "Empty password not allowed"@
            } else {
                result == Ok::<AuthMethod, String>(AuthMethod::Password(pw))
            },
            None => result matches Err(e) && e@ == "No authentication method provided"@,
        },
        result matches Ok(AuthMethod::Password(_)) ==> blank(crate::host_keys::opt_view(key_path)),
{
}
} // verus!
