//! The administrator token and the session cookie built on it: what the
//! token file must look like on disk, how its text reads back, how a
//! login's token is compared, and the cookie's name and value.
//!
//! The token is 32 random bytes, kept in the state directory as one
//! line of URL-safe base64 without padding.

use vstd::prelude::*;

use base64::engine::general_purpose::URL_SAFE_NO_PAD;
use base64::Engine;
use sha2::{Digest, Sha256};
use subtle::ConstantTimeEq;

use crate::auth::SessionId;
use crate::text::{chars_of, push_str, string_from_chars, to_owned_string, trim, trim_chars};

verus! {

// ---------------------------------------------------------------------
// The outside calls
// ---------------------------------------------------------------------

/// What `URL_SAFE_NO_PAD.encode` of the `base64` crate writes for `data`.
pub uninterp spec fn base64url_encoding(data: Seq<u8>) -> Seq<char>;

/// What `URL_SAFE_NO_PAD.decode` of the `base64` crate gives for the
/// UTF-8 bytes of `text`: the bytes, or the `DecodeError`'s text.
pub uninterp spec fn base64url_decoding(text: Seq<char>) -> Result<Seq<u8>, Seq<char>>;

/// What `Sha256::digest` of the `sha2` crate gives for `data`.
pub uninterp spec fn sha256_digest(data: Seq<u8>) -> Seq<u8>;

/// `base64`'s `URL_SAFE_NO_PAD.encode`: claimed to give the named
/// encoding of `data`, nothing more.
#[verifier::external_body]
fn base64url_encode(data: &[u8]) -> (r: String)
    ensures
        r@ == base64url_encoding(data@),
{
    URL_SAFE_NO_PAD.encode(data)
}

/// `base64`'s `URL_SAFE_NO_PAD.decode` on the text's bytes: claimed to
/// give the named decoding, its error as the `DecodeError`'s `Display`.
#[verifier::external_body]
fn base64url_decode(text: &str) -> (r: Result<Vec<u8>, String>)
    ensures
        match r {
            Ok(v) => base64url_decoding(text@) == Ok::<Seq<u8>, Seq<char>>(v@),
            Err(m) => base64url_decoding(text@) == Err::<Seq<u8>, Seq<char>>(m@),
        },
{
    match URL_SAFE_NO_PAD.decode(text) {
        Ok(v) => Ok(v),
        Err(e) => Err(e.to_string()),
    }
}

/// `sha2`'s `Sha256::digest`: claimed to give the named digest, whose
/// type (`GenericArray<u8, U32>`) holds 32 bytes.
#[verifier::external_body]
fn sha256(data: &[u8]) -> (r: Vec<u8>)
    ensures
        r@ == sha256_digest(data@),
        r@.len() == 32,
{
    Sha256::digest(data).to_vec()
}

/// `subtle`'s `ConstantTimeEq::ct_eq` on two byte slices, read as a
/// `bool`: claimed true exactly when the slices are equal (it returns
/// `Choice(1)` for equal slices and short-circuits on the lengths only).
#[verifier::external_body]
fn constant_time_eq(a: &[u8], b: &[u8]) -> (r: bool)
    ensures
        r == (a@ == b@),
{
    bool::from(a.ct_eq(b))
}

/// `getrandom::fill` on 32 bytes: the bytes, or the error's text.
/// Nothing is claimed of either: they come from the operating system.
#[verifier::external_body]
fn random_32() -> (r: Result<[u8; 32], String>) {
    let mut b = [0u8; 32];
    match getrandom::fill(&mut b) {
        Ok(()) => Ok(b),
        Err(e) => Err(e.to_string()),
    }
}

// ---------------------------------------------------------------------
// The token file
// ---------------------------------------------------------------------

/// The name of the token file inside the state directory.
pub const ADMIN_TOKEN_FILE: &'static str = "admin.token";

/// The prefix of the session cookie's name.
pub const SESSION_COOKIE_PREFIX: &'static str = "arctern_session";

/// How a refused file fails: as `std::io::ErrorKind` names it.
#[derive(Debug, Clone, Copy, PartialEq, Eq)]
pub enum FileRefusalKind {
    PermissionDenied,
    InvalidData,
}

/// Why the state directory or the token file is not used.
#[derive(Debug, Clone, PartialEq, Eq)]
pub struct FileRefusal {
    pub kind: FileRefusalKind,
    pub message: String,
}

/// The refusal of a state directory (`path` as it displays).
pub open spec fn state_dir_refusal(path: Seq<char>, daemon_uid: u32) -> Seq<char> {
    "state directory "@ + path + " must be owned by uid "@ + crate::text::decimal(daemon_uid as nat)
        + " and not writable by group/other"@
}

/// The state directory is used only when it is a directory owned by the
/// daemon's user and writable by nobody else (no `0o022` bit).
pub fn check_state_dir(path: &str, is_dir: bool, uid: u32, mode: u32, daemon_uid: u32) -> (r: Result<(), FileRefusal>)
    ensures
        r is Ok <==> is_dir && uid == daemon_uid && mode & 0o022u32 == 0,
        r matches Err(e) ==> e.kind == FileRefusalKind::PermissionDenied && e.message@ == state_dir_refusal(
            path@,
            daemon_uid,
        ),
{
    if !is_dir || uid != daemon_uid || mode & 0o022u32 != 0 {
        let mut m = to_owned_string("state directory ");
        push_str(&mut m, path);
        push_str(&mut m, " must be owned by uid ");
        let d = crate::text::decimal_string(daemon_uid as u64);
        push_str(&mut m, d.as_str());
        push_str(&mut m, " and not writable by group/other");
        return Err(FileRefusal { kind: FileRefusalKind::PermissionDenied, message: m });
    }
    Ok(())
}

/// The refusal of a token file that is not a regular file.
pub open spec fn token_not_file(path: Seq<char>) -> Seq<char> {
    "admin token "@ + path + " is not a regular file"@
}

/// The refusal of a token file others could read.
pub open spec fn token_exposed(path: Seq<char>, daemon_uid: u32) -> Seq<char> {
    "admin token "@ + path + " must be owned by uid "@ + crate::text::decimal(daemon_uid as nat)
        + " and not accessible by group/other"@
}

/// The token file is read only when it is a regular file owned by the
/// daemon's user that nobody else can access (no `0o077` bit).
pub fn check_token_file(path: &str, is_file: bool, uid: u32, mode: u32, daemon_uid: u32) -> (r: Result<(), FileRefusal>)
    ensures
        r is Ok <==> is_file && uid == daemon_uid && mode & 0o077u32 == 0,
        r matches Err(e) ==> if !is_file {
            e.kind == FileRefusalKind::InvalidData && e.message@ == token_not_file(path@)
        } else {
            e.kind == FileRefusalKind::PermissionDenied && e.message@ == token_exposed(path@, daemon_uid)
        },
{
    if !is_file {
        let mut m = to_owned_string("admin token ");
        push_str(&mut m, path);
        push_str(&mut m, " is not a regular file");
        return Err(FileRefusal { kind: FileRefusalKind::InvalidData, message: m });
    }
    if uid != daemon_uid || mode & 0o077u32 != 0 {
        let mut m = to_owned_string("admin token ");
        push_str(&mut m, path);
        push_str(&mut m, " must be owned by uid ");
        let d = crate::text::decimal_string(daemon_uid as u64);
        push_str(&mut m, d.as_str());
        push_str(&mut m, " and not accessible by group/other");
        return Err(FileRefusal { kind: FileRefusalKind::PermissionDenied, message: m });
    }
    Ok(())
}

/// 32 bytes taken from `v` as an array.
fn to_array(v: &[u8]) -> (r: [u8; 32])
    requires
        v@.len() == 32,
    ensures
        r@ == v@,
{
    let mut a = [0u8; 32];
    let mut i: usize = 0;
    while i < 32
        invariant
            i <= 32,
            v@.len() == 32,
            a@.len() == 32,
            forall|k: int| 0 <= k < i ==> a@[k] == v@[k],
        decreases 32 - i,
    {
        a.set(i, v[i]);
        i += 1;
    }
    assert(a@ =~= v@);
    a
}

/// What the token file's text (at `path`, as it displays) reads back as:
/// the token, or why it is not one.
pub open spec fn token_reading(path: Seq<char>, text: Seq<char>) -> Result<Seq<u8>, Seq<char>> {
    match base64url_decoding(trim(text)) {
        Ok(d) => if d.len() == 32 {
            Ok(d)
        } else {
            Err("admin token "@ + path + " must decode to 32 bytes"@)
        },
        Err(e) => Err("decode admin token "@ + path + ": "@ + e),
    }
}

/// Reads the token back from the file's text: surrounding whitespace
/// trimmed, then URL-safe base64 that must decode to exactly 32 bytes.
/// A refusal is `InvalidData`.
pub fn decode_token(path: &str, text: &str) -> (r: Result<[u8; 32], FileRefusal>)
    ensures
        match r {
            Ok(t) => token_reading(path@, text@) == Ok::<Seq<u8>, Seq<char>>(t@),
            Err(e) => e.kind == FileRefusalKind::InvalidData
                && token_reading(path@, text@) == Err::<Seq<u8>, Seq<char>>(e.message@),
        },
{
    let c = chars_of(text);
    let t = trim_chars(c.as_slice());
    let trimmed = string_from_chars(t.as_slice());
    match base64url_decode(trimmed.as_str()) {
        Ok(d) => {
            if d.len() == 32 {
                Ok(to_array(d.as_slice()))
            } else {
                let mut m = to_owned_string("admin token ");
                push_str(&mut m, path);
                push_str(&mut m, " must decode to 32 bytes");
                Err(FileRefusal { kind: FileRefusalKind::InvalidData, message: m })
            }
        },
        Err(e) => {
            let mut m = to_owned_string("decode admin token ");
            push_str(&mut m, path);
            push_str(&mut m, ": ");
            push_str(&mut m, e.as_str());
            Err(FileRefusal { kind: FileRefusalKind::InvalidData, message: m })
        },
    }
}

/// What a fresh token file holds: the token's encoding and a newline.
pub fn token_file_text(token: &[u8; 32]) -> (r: String)
    ensures
        r@ == base64url_encoding(token@) + "\n"@,
{
    let mut r = base64url_encode(token.as_slice());
    push_str(&mut r, "\n");
    r
}

/// The error of a failed draw from the operating system's random source.
pub open spec fn random_refusal(e: Seq<char>) -> Seq<char> {
    "operating-system random source: "@ + e
}

/// Draws 32 random bytes (a new token or session id); the error names
/// the random source's failure.
pub fn random_id() -> (r: Result<[u8; 32], String>)
    ensures
        r matches Err(m) ==> exists|e: Seq<char>| m@ == random_refusal(e),
{
    match random_32() {
        Ok(b) => Ok(b),
        Err(e) => {
            let mut m = to_owned_string("operating-system random source: ");
            push_str(&mut m, e.as_str());
            assert(m@ == random_refusal(e@));
            Err(m)
        },
    }
}

// ---------------------------------------------------------------------
// Login and the session cookie
// ---------------------------------------------------------------------

/// Whether `encoded` (a login's token, surrounding whitespace ignored)
/// is the administrator token.
pub open spec fn token_accepted(token: Seq<u8>, encoded: Seq<char>) -> bool {
    base64url_decoding(trim(encoded)) == Ok::<Seq<u8>, Seq<char>>(token)
}

/// Compares a login's token with the administrator token, in constant
/// time once it has decoded to 32 bytes.
pub fn token_matches(token: &[u8; 32], encoded: &str) -> (r: bool)
    ensures
        r == token_accepted(token@, encoded@),
{
    let c = chars_of(encoded);
    let t = trim_chars(c.as_slice());
    let trimmed = string_from_chars(t.as_slice());
    match base64url_decode(trimmed.as_str()) {
        Ok(d) => {
            if d.len() != 32 {
                return false;
            }
            constant_time_eq(token.as_slice(), d.as_slice())
        },
        Err(_) => false,
    }
}

/// The session cookie's name for `token`: the prefix and the encoding of
/// the first nine bytes of the token's SHA-256, so each daemon's cookie
/// is its own and a restart keeps it.
pub open spec fn cookie_name_of(token: Seq<u8>) -> Seq<char> {
    SESSION_COOKIE_PREFIX@ + "_"@ + base64url_encoding(sha256_digest(token).take(9))
}

/// The name of the session cookie of the daemon whose token is `token`.
pub fn session_cookie_name(token: &[u8; 32]) -> (r: String)
    ensures
        r@ == cookie_name_of(token@),
{
    let digest = sha256(token.as_slice());
    let mut head: Vec<u8> = Vec::new();
    let mut i: usize = 0;
    while i < 9
        invariant
            i <= 9,
            digest@.len() == 32,
            head@ == digest@.take(i as int),
        decreases 9 - i,
    {
        head.push(digest[i]);
        assert(digest@.take(i + 1) =~= digest@.take(i as int).push(digest@[i as int]));
        i += 1;
    }
    let namespace = base64url_encode(head.as_slice());
    let mut r = to_owned_string(SESSION_COOKIE_PREFIX);
    push_str(&mut r, "_");
    push_str(&mut r, namespace.as_str());
    r
}

/// The session cookie's value for session `id`.
pub fn session_cookie_value(id: &SessionId) -> (r: String)
    ensures
        r@ == base64url_encoding(id@),
{
    base64url_encode(id.as_slice())
}

/// The session a cookie value names: its decoding, when that is 32
/// bytes.
pub open spec fn session_of_cookie(value: Seq<char>) -> Option<Seq<u8>> {
    match base64url_decoding(value) {
        Ok(d) => if d.len() == 32 { Some(d) } else { None },
        Err(_) => None,
    }
}

/// Reads a session id out of the session cookie's value.
pub fn session_id_of(value: &str) -> (r: Option<SessionId>)
    ensures
        match r {
            Some(id) => session_of_cookie(value@) == Some(id@),
            None => session_of_cookie(value@) is None,
        },
{
    match base64url_decode(value) {
        Ok(d) => if d.len() == 32 {
            Some(to_array(d.as_slice()))
        } else {
            None
        },
        Err(_) => None,
    }
}

} // verus!
