//! Account rules: registration and profile validation, password checks,
//! bearer tokens, roles, and the other request validations of the API.

use vstd::prelude::*;
use argon2::password_hash::{rand_core::OsRng, PasswordHash, PasswordHasher, PasswordVerifier, SaltString};
use crate::error::AppError;
use crate::text::{
    ascii_lower, chars_of, concat, contains_char, owned, str_eq, string_from_chars,
    to_ascii_lowercase, to_uppercase, trim, trim_ws, uppercase, has_prefix, chars_start_with,
};

verus! {

// ── Passwords ───────────────────────────────────────────────────────────────

/// Whether a stored hash parses as a PHC string (`PasswordHash::new`).
pub uninterp spec fn phc_parses(hash: Seq<char>) -> bool;

/// Whether Argon2 (default parameters) accepts a password for a parsed PHC hash.
pub uninterp spec fn argon2_accepts(plain: Seq<char>, hash: Seq<char>) -> bool;

/// Calls `PasswordHash::new`. The outcome is named.
#[verifier::external_body]
fn phc_hash_parses(hash: &str) -> (r: bool)
    ensures
        r == phc_parses(hash@),
{
    PasswordHash::new(hash).is_ok()
}

/// Calls `Argon2::default().verify_password` on a hash that parses. The outcome is named.
#[verifier::external_body]
fn argon2_verify(plain: &str, hash: &str) -> (r: bool)
    requires
        phc_parses(hash@),
    ensures
        r == argon2_accepts(plain@, hash@),
{
    match PasswordHash::new(hash) {
        Ok(parsed) => argon2::Argon2::default().verify_password(plain.as_bytes(), &parsed).is_ok(),
        Err(_) => false,
    }
}

/// Calls `Argon2::default().hash_password` with a fresh random salt
/// (`SaltString::generate`, always a valid 16-byte salt); `None` when hashing
/// fails. With the default parameters and such a salt, the only failure the
/// crate has is a password longer than `MAX_PWD_LEN` (0xFFFF_FFFF) bytes, so a
/// hash is given for every shorter one. The salt is random, so the text of the
/// hash is not stated; what is stated is that the PHC string parses back and
/// verifies against the same password.
#[verifier::external_body]
fn argon2_hash(plain: &str) -> (r: Option<String>)
    ensures
        vstd::utf8::encode_utf8(plain@).len() <= 0xFFFF_FFFF ==> r is Some,
        r matches Some(h) ==> phc_parses(h@) && argon2_accepts(plain@, h@),
{
    let salt = SaltString::generate(&mut OsRng);
    argon2::Argon2::default().hash_password(plain.as_bytes(), &salt).map(|h| h.to_string()).ok()
}

/// Hashes a password with Argon2 and a random salt. Every password of at
/// most 0xFFFF_FFFF bytes gets a hash.
pub fn hash_password(plain: &str) -> (r: Result<String, AppError>)
    ensures
        vstd::utf8::encode_utf8(plain@).len() <= 0xFFFF_FFFF ==> r is Ok,
        r matches Err(e) ==> (e matches AppError::Internal(m) && m@ == "Password hashing failed"@),
        r matches Ok(h) ==> phc_parses(h@) && argon2_accepts(plain@, h@),
{
    match argon2_hash(plain) {
        Some(h) => Ok(h),
        None => Err(AppError::Internal(owned("Password hashing failed"))),
    }
}

/// Checks a password against a stored hash: a hash that does not parse is an
/// internal error, a wrong password is unauthorized.
pub fn verify_password(plain: &str, hash: &str) -> (r: Result<(), AppError>)
    ensures
        !phc_parses(hash@) ==> (r matches Err(AppError::Internal(m)) && m@ == "Invalid stored password hash"@),
        phc_parses(hash@) && argon2_accepts(plain@, hash@) ==> r is Ok,
        phc_parses(hash@) && !argon2_accepts(plain@, hash@) ==> (r matches Err(e) && e is Unauthorized),
{
    if !phc_hash_parses(hash) {
        return Err(AppError::Internal(owned("Invalid stored password hash")));
    }
    if argon2_verify(plain, hash) {
        Ok(())
    } else {
        Err(AppError::Unauthorized)
    }
}

// ── Registration ────────────────────────────────────────────────────────────

/// An email address the service accepts: not blank, with an `@`.
pub open spec fn plausible_email(email: Seq<char>) -> bool {
    trim_ws(email).len() > 0 && email.contains('@')
}

/// Refuses an email address that is blank or has no `@`.
pub fn validate_email(email: &str) -> (r: Result<(), AppError>)
    ensures
        plausible_email(email@) ==> r is Ok,
        !plausible_email(email@) ==> (r matches Err(AppError::BadRequest(m)) && m@ == "Invalid email address"@),
{
    let e = trim(email);
    let ev = chars_of(email);
    if e.as_str().unicode_len() == 0 || !contains_char(ev.as_slice(), '@') {
        Err(AppError::BadRequest(owned("Invalid email address")))
    } else {
        Ok(())
    }
}

/// The form an invite's email is stored in: trimmed, ASCII lowercase.
pub fn invite_email(email: &str) -> (r: String)
    ensures
        r@ == ascii_lower(trim_ws(email@)),
{
    let t = trim(email);
    to_ascii_lowercase(t.as_str())
}

/// Number of bytes of a text's UTF-8 encoding, as `str::len` reports it.
pub open spec fn byte_len(s: &str) -> nat {
    s.len() as nat
}

/// Why a registration is refused, if it is: checked in this order.
pub open spec fn registration_error(email: &str, password: &str, invite_code: &str) -> Option<Seq<char>> {
    if trim_ws(email@).len() == 0 || !email@.contains('@') {
        Some("Invalid email address"@)
    } else if byte_len(password) < 8 {
        Some("Password must be at least 8 characters"@)
    } else if trim_ws(invite_code@).len() == 0 {
        Some("Invite code is required"@)
    } else {
        None
    }
}

/// Checks the fields of a registration before the invite code is looked up.
pub fn validate_registration(email: &str, password: &str, invite_code: &str) -> (r: Result<(), AppError>)
    ensures
        match registration_error(email, password, invite_code) {
            Some(m) => r matches Err(AppError::BadRequest(x)) && x@ == m,
            None => r is Ok,
        },
{
    let e = trim(email);
    let ev = chars_of(email);
    if e.as_str().unicode_len() == 0 || !contains_char(ev.as_slice(), '@') {
        return Err(AppError::BadRequest(owned("Invalid email address")));
    }
    if password.len() < 8 {
        return Err(AppError::BadRequest(owned("Password must be at least 8 characters")));
    }
    let i = trim(invite_code);
    if i.as_str().unicode_len() == 0 {
        return Err(AppError::BadRequest(owned("Invite code is required")));
    }
    Ok(())
}

/// Whether an invite reserved for `invite_email` may be used by `email`
/// (ASCII case-insensitive, surrounding whitespace of `email` ignored).
pub fn invite_matches_email(invite_email: &str, email: &str) -> (r: bool)
    ensures
        r == (ascii_lower(invite_email@) == ascii_lower(trim_ws(email@))),
{
    let a = to_ascii_lowercase(invite_email);
    let t = trim(email);
    let b = to_ascii_lowercase(t.as_str());
    str_eq(a.as_str(), b.as_str())
}

/// The display name a request sets: trimmed, none when blank; refused when
/// longer than 50 bytes.
pub open spec fn display_name_rule(d: Option<Seq<char>>) -> Option<Option<Seq<char>>> {
    match d {
        None => Some(None),
        Some(s) => {
            let t = trim_ws(s);
            if t.len() == 0 {
                Some(None)
            } else if encode_utf8_len(t) > 50 {
                None
            } else {
                Some(Some(t))
            }
        },
    }
}

/// Number of bytes of the UTF-8 encoding of a character sequence, as `str::len` reports it.
pub open spec fn encode_utf8_len(s: Seq<char>) -> nat {
    (vstd::utf8::encode_utf8(s).len() as usize) as nat
}

/// Normalises an optional display name: trimmed, blank clears it, more than
/// 50 bytes is refused.
pub fn normalize_display_name(d: Option<&str>) -> (r: Result<Option<String>, AppError>)
    ensures
        match display_name_rule(match d { Some(s) => Some(s@), None => None }) {
            Some(None) => r matches Ok(None),
            Some(Some(t)) => r matches Ok(Some(x)) && x@ == t,
            None => r matches Err(AppError::BadRequest(m)) && m@ == "Display name must be 50 characters or fewer"@,
        },
{
    match d {
        None => Ok(None),
        Some(s) => {
            let t = trim(s);
            if t.as_str().unicode_len() == 0 {
                Ok(None)
            } else if t.as_str().len() > 50 {
                Err(AppError::BadRequest(owned("Display name must be 50 characters or fewer")))
            } else {
                Ok(Some(t))
            }
        },
    }
}

/// Checks a new password (on a change or a reset): at least 8 bytes.
pub fn validate_new_password(new_password: &str) -> (r: Result<(), AppError>)
    ensures
        byte_len(new_password) < 8 ==> (r matches Err(AppError::BadRequest(m)) && m@ == "New password must be at least 8 characters"@),
        byte_len(new_password) >= 8 ==> r is Ok,
{
    if new_password.len() < 8 {
        Err(AppError::BadRequest(owned("New password must be at least 8 characters")))
    } else {
        Ok(())
    }
}

/// Checks a password change: the new password has at least 8 bytes and
/// differs from the current one.
pub fn validate_password_change(current: &str, new_password: &str) -> (r: Result<(), AppError>)
    ensures
        byte_len(new_password) < 8 ==> (r matches Err(AppError::BadRequest(m)) && m@ == "New password must be at least 8 characters"@),
        byte_len(new_password) >= 8 && current@ == new_password@ ==> (r matches Err(AppError::BadRequest(m)) && m@ == "New password must differ from the current password"@),
        byte_len(new_password) >= 8 && current@ != new_password@ ==> r is Ok,
{
    if let Err(e) = validate_new_password(new_password) {
        return Err(e);
    }
    if str_eq(current, new_password) {
        return Err(AppError::BadRequest(owned("New password must differ from the current password")));
    }
    Ok(())
}

// ── Tokens and roles ────────────────────────────────────────────────────────

/// The token of an `Authorization` header: what follows `"Bearer "`.
pub fn bearer_token(header: Option<&str>) -> (r: Result<String, AppError>)
    ensures
        match header {
            Some(h) => if has_prefix(h@, "Bearer "@) {
                r matches Ok(t) && t@ == h@.skip(7)
            } else {
                r matches Err(e) && e is Unauthorized
            },
            None => r matches Err(e) && e is Unauthorized,
        },
{
    match header {
        None => Err(AppError::Unauthorized),
        Some(h) => {
            let v = chars_of(h);
            let p = chars_of("Bearer ");
            proof {
                reveal_strlit("Bearer ");
            }
            if chars_start_with(v.as_slice(), p.as_slice()) {
                let mut out: Vec<char> = Vec::new();
                let mut i: usize = 7;
                while i < v.len()
                    invariant
                        7 <= i <= v@.len(),
                        out@ == v@.subrange(7, i as int),
                    decreases v@.len() - i,
                {
                    out.push(v[i]);
                    i = i + 1;
                    assert(v@.subrange(7, i as int) =~= v@.subrange(7, (i - 1) as int).push(v@[i - 1]));
                }
                assert(v@.subrange(7, v@.len() as int) =~= h@.skip(7));
                Ok(string_from_chars(out.as_slice()))
            } else {
                Err(AppError::Unauthorized)
            }
        },
    }
}

/// Admin-only endpoints refuse every role but "admin".
pub fn require_admin(role: &str) -> (r: Result<(), AppError>)
    ensures
        role@ == "admin"@ ==> r is Ok,
        role@ != "admin"@ ==> (r matches Err(e) && e is Forbidden),
{
    if str_eq(role, "admin") {
        Ok(())
    } else {
        Err(AppError::Forbidden)
    }
}

/// The rebalance endpoint's secret check: when a secret is configured, the
/// header must carry exactly that secret (a missing header counts as empty).
pub fn check_rebalance_secret(expected: Option<&str>, provided: Option<&str>) -> (r: Result<(), AppError>)
    ensures
        match expected {
            None => r is Ok,
            Some(x) => {
                let p = match provided { Some(v) => v@, None => Seq::<char>::empty() };
                if p == x@ { r is Ok } else { r matches Err(e) && e is Forbidden }
            },
        },
{
    match expected {
        None => Ok(()),
        Some(x) => {
            let p = match provided {
                Some(v) => owned(v),
                None => String::new(),
            };
            if str_eq(p.as_str(), x) {
                Ok(())
            } else {
                Err(AppError::Forbidden)
            }
        },
    }
}

// ── Other request checks ────────────────────────────────────────────────────

/// A required text field: trimmed; refused with the given message when blank.
pub fn required_text(s: &str, message: &str) -> (r: Result<String, AppError>)
    ensures
        trim_ws(s@).len() == 0 ==> (r matches Err(AppError::BadRequest(m)) && m@ == message@),
        trim_ws(s@).len() > 0 ==> (r matches Ok(t) && t@ == trim_ws(s@)),
{
    let t = trim(s);
    if t.as_str().unicode_len() == 0 {
        Err(AppError::BadRequest(owned(message)))
    } else {
        Ok(t)
    }
}

/// A feedback message: trimmed, not blank.
pub fn feedback_message(s: &str) -> (r: Result<String, AppError>)
    ensures
        trim_ws(s@).len() == 0 ==> (r matches Err(AppError::BadRequest(m)) && m@ == "Message must not be empty"@),
        trim_ws(s@).len() > 0 ==> (r matches Ok(t) && t@ == trim_ws(s@)),
{
    required_text(s, "Message must not be empty")
}

/// A personal FMP key: trimmed, not blank.
pub fn fmp_key(s: &str) -> (r: Result<String, AppError>)
    ensures
        trim_ws(s@).len() == 0 ==> (r matches Err(AppError::BadRequest(m)) && m@ == "fmp_key must not be empty"@),
        trim_ws(s@).len() > 0 ==> (r matches Ok(t) && t@ == trim_ws(s@)),
{
    required_text(s, "fmp_key must not be empty")
}

/// A portfolio name: trimmed, not blank.
pub fn portfolio_name(s: &str) -> (r: Result<String, AppError>)
    ensures
        trim_ws(s@).len() == 0 ==> (r matches Err(AppError::BadRequest(m)) && m@ == "Portfolio name must not be empty"@),
        trim_ws(s@).len() > 0 ==> (r matches Ok(t) && t@ == trim_ws(s@)),
{
    required_text(s, "Portfolio name must not be empty")
}

/// A ticker as entered: trimmed and uppercased; refused when blank.
pub fn normalize_ticker(s: &str) -> (r: Result<String, AppError>)
    ensures
        uppercase(trim_ws(s@)).len() == 0 ==> (r matches Err(AppError::BadRequest(m)) && m@ == "Ticker must not be empty"@),
        uppercase(trim_ws(s@)).len() > 0 ==> (r matches Ok(t) && t@ == uppercase(trim_ws(s@))),
{
    let t = trim(s);
    let u = to_uppercase(t.as_str());
    if u.as_str().unicode_len() == 0 {
        Err(AppError::BadRequest(owned("Ticker must not be empty")))
    } else {
        Ok(u)
    }
}

} // verus!
