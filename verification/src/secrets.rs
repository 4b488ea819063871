use vstd::prelude::*;

use aes_gcm::aead::{Aead, AeadCore, KeyInit, OsRng};
use base64::Engine;

use crate::fileio::{base64_encode, base64_standard};
use crate::storage::Identified;
use crate::text::{decimal, owned};
use vstd::utf8::{decode_utf8, encode_utf8, valid_utf8};

verus! {

/// What AES-256-GCM makes of a plaintext under a key and nonce: the ciphertext with its
/// tag appended.
pub uninterp spec fn aes256gcm_seal(key: Seq<u8>, nonce: Seq<u8>, plaintext: Seq<u8>) -> Seq<u8>;

/// What AES-256-GCM decryption gives for a ciphertext under a key and nonce: the plaintext,
/// or nothing when the tag does not verify.
pub uninterp spec fn aes256gcm_open(key: Seq<u8>, nonce: Seq<u8>, ciphertext: Seq<u8>) -> Option<Seq<u8>>;

/// What the standard base64 engine gives when decoding a text: the bytes, or its error
/// as text.
pub uninterp spec fn base64_standard_decode(text: Seq<char>) -> Result<Seq<u8>, Seq<char>>;

/// The text of the error `String::from_utf8` reports for bytes that are not UTF-8.
pub uninterp spec fn utf8_error_message(bytes: Seq<u8>) -> Seq<char>;

/// Calls `AeadCore::generate_nonce` with `OsRng`: twelve random bytes, of which nothing is
/// claimed.
#[verifier::external_body]
fn fresh_nonce() -> [u8; 12] {
    aes_gcm::Aes256Gcm::generate_nonce(OsRng).into()
}

/// Calls `Aead::encrypt` of `aes_gcm::Aes256Gcm` (made with `KeyInit::new` from `key`). The
/// ciphertext is named; it is the plaintext's length plus the 16-byte tag. Plaintexts over
/// 2^36 bytes make `encrypt` fail (and the call panic), and are left out.
#[verifier::external_body]
fn aes_seal(key: &[u8; 32], nonce: &[u8; 12], plaintext: &[u8]) -> (ciphertext: Vec<u8>)
    requires
        plaintext@.len() <= 0x10_0000_0000,
    ensures
        ciphertext@ == aes256gcm_seal(key@, nonce@, plaintext@),
        ciphertext@.len() == plaintext@.len() + 16,
{
    let cipher = aes_gcm::Aes256Gcm::new(aes_gcm::Key::<aes_gcm::Aes256Gcm>::from_slice(key));
    cipher.encrypt(aes_gcm::Nonce::from_slice(nonce), plaintext).expect("Encryption failed")
}

/// Calls `Aead::decrypt` of `aes_gcm::Aes256Gcm` (made with `KeyInit::new` from `key`). The
/// plaintext is named; decryption recovers exactly what encryption under the same key and
/// nonce sealed, for the plaintexts that encryption accepts (at most 2^36 bytes). A nonce of other than 12 bytes makes `Nonce::from_slice` panic, and is left
/// out.
#[verifier::external_body]
fn aes_open(key: &[u8; 32], nonce: &[u8], ciphertext: &[u8]) -> (plaintext: Option<Vec<u8>>)
    requires
        nonce@.len() == 12,
    ensures
        match plaintext {
            Some(p) => aes256gcm_open(key@, nonce@, ciphertext@) == Some(p@),
            None => aes256gcm_open(key@, nonce@, ciphertext@) is None,
        },
        forall|p: Seq<u8>|
            p.len() <= 0x10_0000_0000 && ciphertext@ == #[trigger] aes256gcm_seal(key@, nonce@, p) ==> plaintext is Some
                && plaintext.unwrap()@ == p,
{
    let cipher = aes_gcm::Aes256Gcm::new(aes_gcm::Key::<aes_gcm::Aes256Gcm>::from_slice(key));
    cipher.decrypt(aes_gcm::Nonce::from_slice(nonce), ciphertext).ok()
}

/// Calls `base64::engine::general_purpose::STANDARD.decode`, giving the bytes or the error
/// as text (both named); a text the same engine encoded decodes back to its bytes.
#[verifier::external_body]
fn base64_decode(text: &str) -> (bytes: Result<Vec<u8>, String>)
    ensures
        match bytes {
            Ok(b) => base64_standard_decode(text@) == Ok::<Seq<u8>, Seq<char>>(b@),
            Err(e) => base64_standard_decode(text@) == Err::<Seq<u8>, Seq<char>>(e@),
        },
        forall|b: Seq<u8>| text@ == #[trigger] base64_standard(b) ==> bytes is Ok && bytes.unwrap()@ == b,
{
    base64::engine::general_purpose::STANDARD.decode(text).map_err(|e| e.to_string())
}

/// Calls `String::from_utf8`: valid UTF-8 gives its characters; other bytes give the
/// error's text, which is named.
#[verifier::external_body]
fn utf8_string(bytes: Vec<u8>) -> (text: Result<String, String>)
    ensures
        match text {
            Ok(t) => valid_utf8(bytes@) && t@ == decode_utf8(bytes@),
            Err(e) => !valid_utf8(bytes@) && e@ == utf8_error_message(bytes@),
        },
{
    String::from_utf8(bytes).map_err(|e| e.to_string())
}

/// The stored form of a secret: base64 of a fresh 12-byte nonce followed by the AES-256-GCM
/// ciphertext of the secret's UTF-8 under that nonce.
pub open spec fn sealed_secret(key: Seq<u8>, nonce: Seq<u8>, text: Seq<char>) -> Seq<char> {
    base64_standard(nonce + aes256gcm_seal(key, nonce, encode_utf8(text)))
}

/// Encrypts a secret for storage; the nonce is random.
pub fn encrypt(data: &str, key: &[u8; 32]) -> (sealed: String)
    requires
        encode_utf8(data@).len() + 28 <= 0x10_0000_0000,
        encode_utf8(data@).len() + 28 <= usize::MAX / 2,
    ensures
        exists|nonce: Seq<u8>| nonce.len() == 12 && sealed@ == sealed_secret(key@, nonce, data@),
{
    let nonce = fresh_nonce();
    let plaintext = data.as_bytes();
    let ciphertext = aes_seal(key, &nonce, plaintext);
    let mut combined: Vec<u8> = vstd::slice::slice_to_vec(&nonce);
    crate::bytes::push_all(&mut combined, ciphertext.as_slice());
    assert(combined@ == nonce@ + aes256gcm_seal(key@, nonce@, encode_utf8(data@)));
    base64_encode(combined.as_slice())
}

/// How a stored secret is read back: base64 errors and AES errors are reported with the
/// libraries' own texts, data too short for a nonce is refused, and the plaintext must be
/// UTF-8.
pub open spec fn spec_decrypt(data: Seq<char>, key: Seq<u8>) -> Result<Seq<char>, Seq<char>> {
    match base64_standard_decode(data) {
        Err(e) => Err(e),
        Ok(b) => if b.len() < 12 {
            Err("Invalid encrypted data"@)
        } else {
            match aes256gcm_open(key, b.subrange(0, 12), b.subrange(12, b.len() as int)) {
                None => Err("aead::Error"@),
                Some(p) => if valid_utf8(p) {
                    Ok(decode_utf8(p))
                } else {
                    Err(utf8_error_message(p))
                },
            }
        },
    }
}

/// Decrypts a stored secret; whatever `encrypt` made with the same key (from a text it
/// accepts) reads back as the original text.
pub fn decrypt(data: &str, key: &[u8; 32]) -> (result: Result<String, String>)
    ensures
        match result {
            Ok(t) => spec_decrypt(data@, key@) == Ok::<Seq<char>, Seq<char>>(t@),
            Err(e) => spec_decrypt(data@, key@) == Err::<Seq<char>, Seq<char>>(e@),
        },
        forall|nonce: Seq<u8>, text: Seq<char>|
            #![trigger sealed_secret(key@, nonce, text)]
            nonce.len() == 12 && encode_utf8(text).len() + 28 <= 0x10_0000_0000 && data@ == sealed_secret(key@, nonce, text)
                ==> result is Ok && result.unwrap()@ == text,
{
    let bytes = match base64_decode(data) {
        Ok(b) => b,
        Err(e) => {
            return Err(e);
        },
    };
    if bytes.len() < 12 {
        return Err(owned("Invalid encrypted data"));
    }
    let nonce = crate::bytes::copy_range(bytes.as_slice(), 0, 12);
    let ciphertext = crate::bytes::copy_range(bytes.as_slice(), 12, bytes.len());
    let opened = aes_open(key, nonce.as_slice(), ciphertext.as_slice());
    proof {
        assert forall|n: Seq<u8>, text: Seq<char>|
            #![trigger sealed_secret(key@, n, text)]
            n.len() == 12 && encode_utf8(text).len() + 28 <= 0x10_0000_0000 && data@ == sealed_secret(key@, n, text) implies opened is Some && opened.unwrap()@
                == encode_utf8(text) by {
            let combined = n + aes256gcm_seal(key@, n, encode_utf8(text));
            assert(data@ == base64_standard(combined));
            assert(bytes@ == combined);
            assert(nonce@ =~= n);
            assert(ciphertext@ =~= aes256gcm_seal(key@, n, encode_utf8(text)));
        }
    }
    let plaintext = match opened {
        Some(p) => p,
        None => {
            return Err(owned("aead::Error"));
        },
    };
    let ghost pv = plaintext@;
    let result = utf8_string(plaintext);
    proof {
        assert forall|n: Seq<u8>, text: Seq<char>|
            #![trigger sealed_secret(key@, n, text)]
            n.len() == 12 && encode_utf8(text).len() + 28 <= 0x10_0000_0000 && data@ == sealed_secret(key@, n, text) implies result is Ok && result.unwrap()@ == text by {
            assert(pv == encode_utf8(text));
            vstd::utf8::encode_utf8_valid_utf8(text);
            vstd::utf8::encode_utf8_decode_utf8(text);
        }
    }
    result
}


/// Reading back one optional secret: an absent or empty value stays as it is; any other
/// is decrypted.
pub open spec fn spec_decrypt_field(value: Option<String>, key: Seq<u8>) -> Result<Option<Seq<char>>, Seq<char>> {
    match value {
        Some(v) => if v@.len() == 0 {
            Ok(Some(v@))
        } else {
            match spec_decrypt(v@, key) {
                Ok(t) => Ok(Some(t)),
                Err(e) => Err(e),
            }
        },
        None => Ok(None),
    }
}

pub fn decrypt_optional_field(value: &mut Option<String>, key: &[u8; 32]) -> (result: Result<(), String>)
    ensures
        match result {
            Ok(()) => spec_decrypt_field(*old(value), key@) == Ok::<Option<Seq<char>>, Seq<char>>(
                crate::ssh_config::opt_view(*final(value)),
            ),
            Err(e) => spec_decrypt_field(*old(value), key@) == Err::<Option<Seq<char>>, Seq<char>>(e@)
                && *final(value) == *old(value),
        },
{
    match value {
        Some(encrypted) => {
            if encrypted.as_str().is_empty() {
                return Ok(());
            }
            let plain = decrypt(encrypted.as_str(), key)?;
            *value = Some(plain);
            Ok(())
        },
        None => Ok(()),
    }
}

/// The secrets of a saved session as they are read back; the first one that cannot be
/// decrypted stops it.
pub open spec fn session_decrypted(out: crate::storage::SessionConfig, s: crate::storage::SessionConfig, key: Seq<u8>) -> bool {
    &&& spec_decrypt_field(s.password, key) == Ok::<Option<Seq<char>>, Seq<char>>(crate::ssh_config::opt_view(out.password))
    &&& spec_decrypt_field(s.passphrase, key) == Ok::<Option<Seq<char>>, Seq<char>>(crate::ssh_config::opt_view(out.passphrase))
    &&& spec_decrypt_field(s.proxy_pass, key) == Ok::<Option<Seq<char>>, Seq<char>>(crate::ssh_config::opt_view(out.proxy_pass))
    &&& spec_decrypt_field(s.jump_password, key) == Ok::<Option<Seq<char>>, Seq<char>>(crate::ssh_config::opt_view(out.jump_password))
    &&& spec_decrypt_field(s.jump_passphrase, key) == Ok::<Option<Seq<char>>, Seq<char>>(
        crate::ssh_config::opt_view(out.jump_passphrase),
    )
    &&& out == (crate::storage::SessionConfig {
        password: out.password,
        passphrase: out.passphrase,
        proxy_pass: out.proxy_pass,
        jump_password: out.jump_password,
        jump_passphrase: out.jump_passphrase,
        ..s
    })
}

/// The error that stops reading back a session's secrets: that of the first secret, in the
/// order password, passphrase, proxy password, jump password, jump passphrase.
pub open spec fn session_decrypt_error(s: crate::storage::SessionConfig, key: Seq<u8>) -> Option<Seq<char>> {
    if spec_decrypt_field(s.password, key) is Err {
        Some(spec_decrypt_field(s.password, key)->Err_0)
    } else if spec_decrypt_field(s.passphrase, key) is Err {
        Some(spec_decrypt_field(s.passphrase, key)->Err_0)
    } else if spec_decrypt_field(s.proxy_pass, key) is Err {
        Some(spec_decrypt_field(s.proxy_pass, key)->Err_0)
    } else if spec_decrypt_field(s.jump_password, key) is Err {
        Some(spec_decrypt_field(s.jump_password, key)->Err_0)
    } else if spec_decrypt_field(s.jump_passphrase, key) is Err {
        Some(spec_decrypt_field(s.jump_passphrase, key)->Err_0)
    } else {
        None
    }
}

pub fn decrypt_session_config(key: &[u8; 32], session: crate::storage::SessionConfig) -> (result: Result<
    crate::storage::SessionConfig,
    String,
>)
    ensures
        match result {
            Ok(out) => session_decrypt_error(session, key@) is None && session_decrypted(out, session, key@),
            Err(e) => session_decrypt_error(session, key@) == Some(e@),
        },
{
    let ghost s = session;
    let mut session = session;
    decrypt_optional_field(&mut session.password, key)?;
    decrypt_optional_field(&mut session.passphrase, key)?;
    decrypt_optional_field(&mut session.proxy_pass, key)?;
    decrypt_optional_field(&mut session.jump_password, key)?;
    decrypt_optional_field(&mut session.jump_passphrase, key)?;
    Ok(session)
}

/// Storing one optional secret: a present, non-empty value is encrypted; others are kept.
pub open spec fn field_sealed(out: Option<String>, value: Option<String>, key: Seq<u8>) -> bool {
    match value {
        Some(v) => if v@.len() == 0 {
            out == value
        } else {
            out is Some && exists|nonce: Seq<u8>| nonce.len() == 12 && out.unwrap()@ == sealed_secret(key, nonce, v@)
        },
        None => out is None,
    }
}

/// Secrets short enough to be encrypted here.
pub open spec fn storable_secret(value: Option<String>) -> bool {
    match value {
        Some(v) => encode_utf8(v@).len() + 28 <= 0x10_0000_0000 && encode_utf8(v@).len() + 28 <= usize::MAX / 2,
        None => true,
    }
}

fn seal_optional_field(value: Option<String>, key: &[u8; 32]) -> (out: Option<String>)
    requires
        storable_secret(value),
    ensures
        field_sealed(out, value, key@),
{
    match value {
        Some(v) => if v.as_str().is_empty() {
            Some(v)
        } else {
            Some(encrypt(v.as_str(), key))
        },
        None => None,
    }
}

/// A session as it is saved: its password, passphrase, proxy password, jump password and
/// jump passphrase encrypted when present and not empty, everything else unchanged.
pub fn encrypt_session_secrets(key: &[u8; 32], session: crate::storage::SessionConfig) -> (out: crate::storage::SessionConfig)
    requires
        storable_secret(session.password),
        storable_secret(session.passphrase),
        storable_secret(session.proxy_pass),
        storable_secret(session.jump_password),
        storable_secret(session.jump_passphrase),
    ensures
        field_sealed(out.password, session.password, key@),
        field_sealed(out.passphrase, session.passphrase, key@),
        field_sealed(out.proxy_pass, session.proxy_pass, key@),
        field_sealed(out.jump_password, session.jump_password, key@),
        field_sealed(out.jump_passphrase, session.jump_passphrase, key@),
        out == (crate::storage::SessionConfig {
            password: out.password,
            passphrase: out.passphrase,
            proxy_pass: out.proxy_pass,
            jump_password: out.jump_password,
            jump_passphrase: out.jump_passphrase,
            ..session
        }),
{
    let mut session = session;
    let password = seal_optional_field(session.password.take(), key);
    session.password = password;
    let passphrase = seal_optional_field(session.passphrase.take(), key);
    session.passphrase = passphrase;
    let proxy_pass = seal_optional_field(session.proxy_pass.take(), key);
    session.proxy_pass = proxy_pass;
    let jump_password = seal_optional_field(session.jump_password.take(), key);
    session.jump_password = jump_password;
    let jump_passphrase = seal_optional_field(session.jump_passphrase.take(), key);
    session.jump_passphrase = jump_passphrase;
    session
}


/// Calls `KeyInit::generate_key` of `aes_gcm::Aes256Gcm` with `OsRng`: a random key, of
/// which nothing is claimed.
#[verifier::external_body]
fn random_key() -> [u8; 32] {
    aes_gcm::Aes256Gcm::generate_key(OsRng).into()
}

/// A new random key for encrypting stored secrets.
pub fn generate_key() -> (key: [u8; 32]) {
    random_key()
}


/// A session sealed for storage: its five secrets encrypted (see `field_sealed`), every
/// other field as it was.
pub open spec fn session_sealed(out: crate::storage::SessionConfig, session: crate::storage::SessionConfig, key: Seq<u8>) -> bool {
    &&& field_sealed(out.password, session.password, key)
    &&& field_sealed(out.passphrase, session.passphrase, key)
    &&& field_sealed(out.proxy_pass, session.proxy_pass, key)
    &&& field_sealed(out.jump_password, session.jump_password, key)
    &&& field_sealed(out.jump_passphrase, session.jump_passphrase, key)
    &&& out == (crate::storage::SessionConfig {
        password: out.password,
        passphrase: out.passphrase,
        proxy_pass: out.proxy_pass,
        jump_password: out.jump_password,
        jump_passphrase: out.jump_passphrase,
        ..session
    })
}

/// A session whose secrets are short enough to be encrypted here.
pub open spec fn storable_session(s: crate::storage::SessionConfig) -> bool {
    &&& storable_secret(s.password)
    &&& storable_secret(s.passphrase)
    &&& storable_secret(s.proxy_pass)
    &&& storable_secret(s.jump_password)
    &&& storable_secret(s.jump_passphrase)
}

/// Whether an imported session is added: it has an id, and no stored session has that id.
pub open spec fn import_accepts(existing: Seq<crate::storage::SessionConfig>, s: crate::storage::SessionConfig) -> bool {
    s.id@.len() > 0 && !(exists|j: int| 0 <= j < existing.len() && #[trigger] existing[j].id@ == s.id@)
}

/// Adds the imported sessions that have an id no stored session has, in order, with their
/// secrets encrypted under the local key, and says how many; an import that adds nothing
/// is refused with the number of sessions skipped.
pub fn import_sessions(key: &[u8; 32], existing: &mut Vec<crate::storage::SessionConfig>, imported: &[crate::storage::SessionConfig]) -> (result: Result<u32, String>)
    requires
        forall|i: int| 0 <= i < imported@.len() ==> storable_session(#[trigger] imported@[i]),
        imported@.len() <= u32::MAX,
    ensures
        ({
            let accepted = imported@.filter(|s: crate::storage::SessionConfig| import_accepts(old(existing)@, s));
            match result {
                Ok(added) => {
                    &&& added == accepted.len()
                    &&& added > 0
                    &&& final(existing)@.len() == old(existing)@.len() + added
                    &&& final(existing)@.take(old(existing)@.len() as int) == old(existing)@
                    &&& forall|k: int|
                        0 <= k < added ==> session_sealed(
                            #[trigger] final(existing)@[old(existing)@.len() + k],
                            accepted[k],
                            key@,
                        )
                },
                Err(e) => {
                    &&& accepted.len() == 0
                    &&& e@ == "未添加新会话（"@ + decimal(imported@.len()) + " 个重复或无效）"@
                    &&& final(existing)@ == old(existing)@
                },
            }
        }),
{
    let ghost before = existing@;
    let ghost accept = |s: crate::storage::SessionConfig| import_accepts(before, s);
    let n0 = existing.len();
    let mut added: Vec<crate::storage::SessionConfig> = Vec::new();
    let mut i: usize = 0;
    assert(imported@.take(0).filter(accept) =~= Seq::<crate::storage::SessionConfig>::empty());
    while i < imported.len()
        invariant
            i <= imported@.len(),
            imported@.len() <= u32::MAX,
            existing@ == before,
            n0 == before.len(),
            accept == (|s: crate::storage::SessionConfig| import_accepts(before, s)),
            forall|j: int| 0 <= j < imported@.len() ==> storable_session(#[trigger] imported@[j]),
            added@.len() == imported@.take(i as int).filter(accept).len(),
            forall|k: int| 0 <= k < added@.len() ==> session_sealed(#[trigger] added@[k], imported@.take(i as int).filter(accept)[k], key@),
        decreases imported@.len() - i,
    {
        let s = &imported[i];
        proof {
            assert(imported@.take(i + 1) =~= imported@.take(i as int).push(imported@[i as int]));
            imported@.take(i as int).lemma_filter_push(imported@[i as int], accept);
        }
        let mut known = s.id.as_str().is_empty();
        if !known {
            match crate::storage::position_of(existing.as_slice(), s.id.as_str()) {
                Some(_) => {
                    known = true;
                },
                None => {
                    proof {
                        assert forall|j: int| 0 <= j < before.len() implies #[trigger] before[j].id@ != s.id@ by {
                            assert(before[j].key() != s.id@);
                        }
                    }
                },
            }
        }
        assert(known == !accept(imported@[i as int]));
        if !known {
            assert(storable_session(imported@[i as int]));
            let sealed = encrypt_session_secrets(key, s.duplicate());
            let ghost prev = added@;
            added.push(sealed);
            assert forall|k: int| 0 <= k < added@.len() implies session_sealed(#[trigger] added@[k], imported@.take(i + 1).filter(accept)[k], key@) by {
                if k < prev.len() {
                    assert(added@[k] == prev[k]);
                }
            }
        }
        i += 1;
    }
    assert(imported@.take(imported@.len() as int) =~= imported@);
    let count = added.len();
    if count == 0 {
        let message = crate::text::concat("未添加新会话（", crate::text::decimal_string(imported.len() as u64).as_str());
        return Err(crate::text::concat(message.as_str(), " 个重复或无效）"));
    }
    let ghost new_part = added@;
    existing.append(&mut added);
    assert(existing@.take(n0 as int) =~= before);
    assert forall|k: int| 0 <= k < count implies session_sealed(#[trigger] existing@[n0 + k], imported@.filter(accept)[k], key@) by {
        assert(existing@[n0 + k] == new_part[k]);
    }
    Ok(count as u32)
}

/// The sessions of an export, their secrets decrypted so that the file stands on its own;
/// a session whose secrets cannot be decrypted stops the export with an error naming it.
pub fn decrypt_sessions_for_export(key: &[u8; 32], sessions: &[crate::storage::SessionConfig]) -> (result: Result<
    Vec<crate::storage::SessionConfig>,
    String,
>)
    ensures
        match result {
            Ok(out) => out@.len() == sessions@.len() && forall|i: int|
                0 <= i < sessions@.len() ==> session_decrypt_error(#[trigger] sessions@[i], key@) is None && session_decrypted(
                    out@[i],
                    sessions@[i],
                    key@,
                ),
            Err(e) => exists|i: int|
                0 <= i < sessions@.len() && (forall|j: int| 0 <= j < i ==> session_decrypt_error(#[trigger] sessions@[j], key@) is None)
                    && #[trigger] session_decrypt_error(sessions@[i], key@) is Some && e@
                    == "Export failed: could not decrypt credentials for session '"@ + sessions@[i].name@ + "': "@
                    + session_decrypt_error(sessions@[i], key@).unwrap(),
        },
{
    let mut out: Vec<crate::storage::SessionConfig> = Vec::new();
    let mut i: usize = 0;
    while i < sessions.len()
        invariant
            i <= sessions@.len(),
            out@.len() == i,
            forall|k: int|
                0 <= k < i ==> session_decrypt_error(#[trigger] sessions@[k], key@) is None && session_decrypted(
                    out@[k],
                    sessions@[k],
                    key@,
                ),
        decreases sessions@.len() - i,
    {
        match decrypt_session_config(key, sessions[i].duplicate()) {
            Ok(d) => {
                let ghost prev = out@;
                out.push(d);
                assert forall|k: int| 0 <= k < i + 1 implies session_decrypt_error(#[trigger] sessions@[k], key@) is None
                    && session_decrypted(out@[k], sessions@[k], key@) by {
                    if k < i {
                        assert(out@[k] == prev[k]);
                    }
                }
            },
            Err(error) => {
                let a = crate::text::concat("Export failed: could not decrypt credentials for session '", sessions[i].name.as_str());
                let b = crate::text::concat(a.as_str(), "': ");
                return Err(crate::text::concat(b.as_str(), error.as_str()));
            },
        }
        i += 1;
    }
    Ok(out)
}

} // verus!
