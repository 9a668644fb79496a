use stock_analysis::auth::{
    bearer_token, check_rebalance_secret, feedback_message, fmp_key, hash_password, invite_email, invite_matches_email,
    normalize_display_name, normalize_ticker, portfolio_name, require_admin, validate_password_change,
    validate_email, validate_new_password, validate_registration, verify_password,
};
use stock_analysis::crypto::{decrypt, encrypt};
use stock_analysis::error::AppError;

fn bad_request(r: Result<impl std::fmt::Debug, AppError>) -> String {
    match r {
        Err(AppError::BadRequest(m)) => m,
        other => panic!("expected a bad request, got {other:?}"),
    }
}

#[test]
fn encrypt_then_decrypt_round_trips() {
    let key = [7u8; 32];
    let blob = encrypt("fmp-api-key-123", &key).unwrap();
    assert_ne!(blob, "fmp-api-key-123");
    assert_eq!(decrypt(&blob, &key).unwrap(), "fmp-api-key-123");
    // A fresh nonce each time: the same plaintext gives different blobs.
    assert_ne!(encrypt("x", &key).unwrap(), encrypt("x", &key).unwrap());
    assert_eq!(decrypt(&encrypt("", &key).unwrap(), &key).unwrap(), "");
}

#[test]
fn decrypt_refuses_bad_blobs() {
    let key = [1u8; 32];
    let blob = encrypt("hello", &key).unwrap();
    assert!(matches!(decrypt(&blob, &[2u8; 32]), Err(AppError::Crypto)));
    assert!(matches!(decrypt("not base64!!", &key), Err(AppError::Crypto)));
    // Valid base64 of fewer than 12 bytes.
    assert!(matches!(decrypt("AAAA", &key), Err(AppError::Crypto)));
}

#[test]
fn password_hash_and_verify() {
    let h = hash_password("correct horse").unwrap();
    assert!(h.starts_with("$argon2"));
    assert!(verify_password("correct horse", &h).is_ok());
    assert!(matches!(verify_password("wrong", &h), Err(AppError::Unauthorized)));
    assert!(verify_password("x", "not a phc string").is_err());
}

#[test]
fn registration_rules() {
    assert!(validate_registration("a@b.com", "12345678", "INV").is_ok());
    assert_eq!(bad_request(validate_registration("  ", "12345678", "INV")), "Invalid email address");
    assert_eq!(bad_request(validate_registration("ab.com", "12345678", "INV")), "Invalid email address");
    assert_eq!(bad_request(validate_registration("a@b.com", "1234567", "INV")), "Password must be at least 8 characters");
    assert_eq!(bad_request(validate_registration("a@b.com", "12345678", " ")), "Invite code is required");
    assert!(invite_matches_email("Jane@Example.com", "  jane@example.COM "));
    assert!(!invite_matches_email("jane@example.com", "john@example.com"));
}

#[test]
fn profile_and_password_rules() {
    assert_eq!(normalize_display_name(None).unwrap(), None);
    assert_eq!(normalize_display_name(Some("   ")).unwrap(), None);
    assert_eq!(normalize_display_name(Some("  Jane ")).unwrap().as_deref(), Some("Jane"));
    let long = "x".repeat(51);
    assert_eq!(bad_request(normalize_display_name(Some(&long))), "Display name must be 50 characters or fewer");
    assert!(normalize_display_name(Some(&"x".repeat(50))).is_ok());
    assert!(validate_password_change("oldpassword", "newpassword").is_ok());
    assert_eq!(bad_request(validate_password_change("old", "short")), "New password must be at least 8 characters");
    assert_eq!(
        bad_request(validate_password_change("samepassword", "samepassword")),
        "New password must differ from the current password"
    );
}

#[test]
fn bearer_tokens_and_roles() {
    assert_eq!(bearer_token(Some("Bearer abc.def")).unwrap(), "abc.def");
    assert_eq!(bearer_token(Some("Bearer ")).unwrap(), "");
    assert!(matches!(bearer_token(Some("Basic abc")), Err(AppError::Unauthorized)));
    assert!(matches!(bearer_token(None), Err(AppError::Unauthorized)));
    assert!(require_admin("admin").is_ok());
    assert!(matches!(require_admin("user"), Err(AppError::Forbidden)));
    assert!(check_rebalance_secret(None, None).is_ok());
    assert!(check_rebalance_secret(Some("s3"), Some("s3")).is_ok());
    assert!(matches!(check_rebalance_secret(Some("s3"), Some("nope")), Err(AppError::Forbidden)));
    assert!(matches!(check_rebalance_secret(Some("s3"), None), Err(AppError::Forbidden)));
}

#[test]
fn required_texts() {
    assert_eq!(feedback_message("  great app ").unwrap(), "great app");
    assert_eq!(bad_request(feedback_message(" ")), "Message must not be empty");
    assert_eq!(bad_request(fmp_key("")), "fmp_key must not be empty");
    assert_eq!(portfolio_name(" Growth ").unwrap(), "Growth");
    assert_eq!(bad_request(portfolio_name("\t")), "Portfolio name must not be empty");
    assert_eq!(normalize_ticker(" brk.b ").unwrap(), "BRK.B");
    assert_eq!(bad_request(normalize_ticker("  ")), "Ticker must not be empty");
}

#[test]
fn error_statuses_and_messages() {
    let cases: Vec<(AppError, u16, &str)> = vec![
        (AppError::Upstream("timeout".into()), 502, "FMP API request failed: timeout"),
        (AppError::NotFound, 404, "Ticker not found or no data returned"),
        (AppError::InsufficientData { needed: 5, have: 2 }, 422, "Insufficient historical data: need 5 years, have 2"),
        (AppError::Unprocessable("bad sector".into()), 422, "bad sector"),
        (AppError::BadRequest("x".into()), 400, "Invalid input: x"),
        (AppError::Unauthorized, 401, "Authentication required"),
        (AppError::Forbidden, 403, "Access denied"),
        (AppError::Db("down".into()), 500, "Database error: down"),
        (AppError::Crypto, 500, "Encryption error"),
        (AppError::Unavailable("X not set".into()), 503, "Service unavailable: X not set"),
        (AppError::Internal("oops".into()), 500, "Internal error: oops"),
    ];
    for (e, status, msg) in cases {
        assert_eq!(e.status_code(), status);
        assert_eq!(e.message(), msg);
        assert_eq!(e.body().error, msg);
    }
}

#[test]
fn email_and_new_password_rules() {
    assert!(validate_email("a@b.co").is_ok());
    assert_eq!(bad_request(validate_email("  ")), "Invalid email address");
    assert_eq!(bad_request(validate_email("nobody")), "Invalid email address");
    assert_eq!(invite_email("  Jane@Example.COM "), "jane@example.com");
    assert!(validate_new_password("12345678").is_ok());
    assert_eq!(bad_request(validate_new_password("1234567")), "New password must be at least 8 characters");
}
