use vstd::prelude::*;

use base64::Engine;

use crate::file_names::{sanitize_action_key, spec_mime_for_extension, spec_sanitize_action_key};
use crate::text::{chars_of, concat, owned, string_of, to_lowercase, trim, trim_chars, unicode_lowercase};

verus! {

/// A desktop pet image copied into the application's data.
#[derive(Clone, Debug, PartialEq, Eq)]
pub struct ImportedDesktopPetAsset {
    pub stored_path: String,
    pub file_name: String,
    /// The image as a base64 `data:` URL, so that it can be shown at once.
    pub data_url: String,
}

/// What the standard base64 engine (with padding) makes of these bytes.
pub uninterp spec fn base64_standard(bytes: Seq<u8>) -> Seq<char>;

/// Calls `base64::engine::general_purpose::STANDARD.encode`. The text is named; its length
/// is four characters for every three bytes or part of three, as padding gives it. Inputs
/// too long for that length to fit in `usize` make the call panic, and are left out.
#[verifier::external_body]
pub(crate) fn base64_encode(bytes: &[u8]) -> (text: String)
    requires
        bytes@.len() <= usize::MAX / 2,
    ensures
        text@ == base64_standard(bytes@),
        text@.len() == 4 * ((bytes@.len() + 2) / 3),
{
    base64::engine::general_purpose::STANDARD.encode(bytes)
}

/// Files that hold secrets (keys, credentials, connection logs) are kept readable and
/// writable by their owner alone: a file whose permission bits (the low nine bits of its
/// mode) differ from that is set back to owner read-write.
pub fn permissions_need_tightening(mode: u32) -> (tighten: bool)
    ensures
        tighten == (mode & 0o777u32 != 0o600u32),
{
    mode & 0o777u32 != 0o600u32
}

/// Whether a path has a `..` component.
pub open spec fn has_parent_component(path: Seq<char>) -> bool {
    exists|i: int|
        0 <= i && i + 2 <= path.len() && #[trigger] path[i] == '.' && path[i + 1] == '.' && (i == 0 || path[i - 1]
            == '/') && (i + 2 == path.len() || path[i + 2] == '/')
}

/// A text file is saved only at a path without `..` components.
pub fn check_save_path(path: &str) -> (result: Result<(), String>)
    ensures
        match result {
            Ok(()) => !has_parent_component(path@),
            Err(e) => has_parent_component(path@) && e@ == "路径包含非法字符"@,
        },
{
    let p = chars_of(path);
    let n = p.len();
    let mut i: usize = 0;
    while i < n
        invariant
            p@ == path@,
            n == p@.len(),
            i <= n,
            forall|k: int|
                0 <= k < i ==> !(k + 2 <= p@.len() && #[trigger] p@[k] == '.' && p@[k + 1] == '.' && (k == 0 || p@[k
                    - 1] == '/') && (k + 2 == p@.len() || p@[k + 2] == '/')),
        decreases n - i,
    {
        if n - i >= 2 && p[i] == '.' && p[i + 1] == '.' && (i == 0 || p[i - 1] == '/') && (i + 2 == n || p[i + 2]
            == '/') {
            return Err(owned("路径包含非法字符"));
        }
        i += 1;
    }
    Ok(())
}

/// The extension a desktop pet image is stored with: trimmed and in lower case; an image
/// without one is refused.
pub open spec fn spec_pet_extension(extension: Option<Seq<char>>) -> Option<Seq<char>> {
    match extension {
        Some(e) => {
            let l = unicode_lowercase(trim(e));
            if l.len() == 0 {
                None
            } else {
                Some(l)
            }
        },
        None => None,
    }
}

pub fn desktop_pet_extension(extension: Option<&str>) -> (result: Result<String, String>)
    ensures
        match result {
            Ok(e) => spec_pet_extension(crate::ssh_config::opt_str_view(extension)) == Some(e@),
            Err(e) => spec_pet_extension(crate::ssh_config::opt_str_view(extension)) is None && e@
                == "无法识别资源文件扩展名"@,
        },
{
    match extension {
        Some(e) => {
            let trimmed = string_of(trim_chars(chars_of(e).as_slice()).as_slice());
            let lower = to_lowercase(trimmed.as_str());
            if lower.as_str().is_empty() {
                Err(owned("无法识别资源文件扩展名"))
            } else {
                Ok(lower)
            }
        },
        None => Err(owned("无法识别资源文件扩展名")),
    }
}

/// The stored name of a desktop pet image: the cleaned action key, a dash, a fresh id, a
/// dot, and the extension.
pub fn desktop_pet_file_name(action_key: &str, id: &str, extension: &str) -> (name: String)
    ensures
        name@ == spec_sanitize_action_key(action_key@) + "-"@ + id@ + "."@ + extension@,
{
    let key = sanitize_action_key(action_key);
    let a = concat(key.as_str(), "-");
    let b = concat(a.as_str(), id);
    let c = concat(b.as_str(), ".");
    concat(c.as_str(), extension)
}

/// The stored name of a newly imported desktop pet image, with a fresh random id (the 36
/// characters of a hyphenated UUID).
pub fn new_desktop_pet_file_name(action_key: &str, extension: &str) -> (name: String)
    ensures
        exists|id: Seq<char>|
            id.len() == 36 && name@ == spec_sanitize_action_key(action_key@) + "-"@ + id + "."@ + extension@,
{
    let id = crate::storage::fresh_uuid();
    desktop_pet_file_name(action_key, id.as_str(), extension)
}

/// The `data:` URL of an image: its MIME type by extension and its bytes in base64.
pub fn desktop_pet_data_url(extension: &str, bytes: &[u8]) -> (url: String)
    requires
        bytes@.len() <= usize::MAX / 2,
    ensures
        url@ == "data:"@ + spec_mime_for_extension(extension@) + ";base64,"@ + base64_standard(bytes@),
{
    let mime = crate::file_names::mime_for_extension(extension);
    let head = concat("data:", mime);
    let head = concat(head.as_str(), ";base64,");
    let encoded = base64_encode(bytes);
    concat(head.as_str(), encoded.as_str())
}

} // verus!
