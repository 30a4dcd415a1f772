use rust_practice::digest::{sha256text, to_hex_lower};
use rust_practice::session::{
    callback_cookies, check_digits, check_nonce, check_state, claims_to_map, login_cookies, logout_cookies,
    logout_form, make_secret_cookie, recover_from_claims_failure, token_cookies, ClaimsRecovery, CookieUpdate,
    SameSite, SessionError, UserClaims,
};

const CSRF_SALT: &str = "another secret phrase";
const NONCE_SALT: &str = "a secret phrase";

fn stored(u: &CookieUpdate) -> (&str, &str, bool) {
    match u {
        CookieUpdate::Store(c) => {
            assert_eq!(c.path, "/");
            assert!(!c.secure);
            assert_eq!(c.same_site, SameSite::Lax);
            (c.name.as_str(), c.value.as_str(), c.http_only)
        }
        CookieUpdate::Remove(n) => panic!("unexpected removal of {}", n),
    }
}

fn removed(u: &CookieUpdate) -> &str {
    match u {
        CookieUpdate::Remove(n) => n.as_str(),
        CookieUpdate::Store(c) => panic!("unexpected cookie {}", c.name),
    }
}

#[test]
fn hex_of_bytes() {
    assert_eq!(to_hex_lower(&[0x00, 0x0a, 0xff, 0x3c]), "000aff3c");
    assert_eq!(to_hex_lower(&[]), "");
}

#[test]
fn sha256text_known_values() {
    assert_eq!(sha256text("", ""), "e3b0c44298fc1c149afbf4c8996fb92427ae41e4649b934ca495991b7852b855");
    assert_eq!(sha256text("a longer text to digest", "salt").len(), 64);
    assert_eq!(sha256text("abc", ""), "ba7816bf8f01cfea414140de5dae2223b00361a396177a9cb410ff61f20015ad");
    assert_eq!(sha256text("c", "ab"), "ba7816bf8f01cfea414140de5dae2223b00361a396177a9cb410ff61f20015ad");
    assert_eq!(
        sha256text("eyJ.token", CSRF_SALT),
        "433348f7c3fecabdd05b8c1fd9f51dcd6b40a83eef2f4231168bdfa1d80b27ca"
    );
}

#[test]
fn check_digits_accepts_issued_digits() {
    let digits = sha256text("eyJ.token", CSRF_SALT);
    assert_eq!(check_digits(Some(&digits), Some("eyJ.token"), CSRF_SALT).unwrap(), "eyJ.token");
}

#[test]
fn check_digits_refusals() {
    assert_eq!(check_digits(None, Some("eyJ.token"), CSRF_SALT), Err(SessionError::NoAuthorizationHeader));
    assert_eq!(check_digits(None, None, CSRF_SALT), Err(SessionError::NoAuthorizationHeader));
    assert_eq!(check_digits(Some("abc"), None, CSRF_SALT), Err(SessionError::NoIdToken));
    assert_eq!(check_digits(Some("abc"), Some("eyJ.token"), CSRF_SALT), Err(SessionError::IllegalCheckDigits));
    let other_salt = sha256text("eyJ.token", NONCE_SALT);
    assert_eq!(
        check_digits(Some(&other_salt), Some("eyJ.token"), CSRF_SALT),
        Err(SessionError::IllegalCheckDigits)
    );
}

#[test]
fn check_nonce_cases() {
    let cookie = sha256text("n-123", NONCE_SALT);
    assert_eq!(cookie, "6006fba10099624fae0f19d7f953c9ad8c804f24e23427cc2e5a4318395541a7");
    assert_eq!(check_nonce(Some("n-123"), Some(&cookie), NONCE_SALT), Ok(()));
    assert_eq!(check_nonce(Some("n-124"), Some(&cookie), NONCE_SALT), Err(SessionError::NonceMismatch));
    assert_eq!(check_nonce(Some("n-123"), None, NONCE_SALT), Err(SessionError::NoNonceInCookies));
    assert_eq!(check_nonce(None, Some(""), NONCE_SALT), Ok(()));
    assert_eq!(check_nonce(None, Some(&cookie), NONCE_SALT), Err(SessionError::NonceMismatch));
}

#[test]
fn check_state_cases() {
    let cookie = sha256text("state-42", CSRF_SALT);
    assert_eq!(cookie, "10b5d5093bd27fa58b2592a1324a0769bdad99a1af24663eac64f1723dc5ac86");
    assert_eq!(check_state(Some(&cookie), "state-42", CSRF_SALT), Ok(()));
    assert_eq!(check_state(Some(&cookie), "state-43", CSRF_SALT), Err(SessionError::InvalidState));
    assert_eq!(check_state(None, "state-42", CSRF_SALT), Err(SessionError::NoState));
}

#[test]
fn login_cookies_hold_salted_digests() {
    let out = login_cookies("state-42", "n-123", CSRF_SALT, NONCE_SALT);
    assert_eq!(out.len(), 2);
    assert_eq!(
        stored(&out[0]),
        ("csrf_token", "10b5d5093bd27fa58b2592a1324a0769bdad99a1af24663eac64f1723dc5ac86", true)
    );
    assert_eq!(stored(&out[1]), ("nonce", "6006fba10099624fae0f19d7f953c9ad8c804f24e23427cc2e5a4318395541a7", true));
    let (_, csrf, _) = stored(&out[0]);
    assert_eq!(check_state(Some(csrf), "state-42", CSRF_SALT), Ok(()));
    let (_, nonce, _) = stored(&out[1]);
    assert_eq!(check_nonce(Some("n-123"), Some(nonce), NONCE_SALT), Ok(()));
}

#[test]
fn callback_cookies_replace_login_cookies() {
    let out = callback_cookies(Some("refresh-1"), "eyJ.token", CSRF_SALT);
    assert_eq!(out.len(), 5);
    assert_eq!(removed(&out[0]), "csrf_token");
    assert_eq!(removed(&out[1]), "nonce");
    assert_eq!(stored(&out[2]), ("refresh_token", "refresh-1", true));
    assert_eq!(stored(&out[3]), ("id_token", "eyJ.token", true));
    let (name, digits, http_only) = stored(&out[4]);
    assert_eq!((name, http_only), ("check_digits", false));
    assert_eq!(digits, "433348f7c3fecabdd05b8c1fd9f51dcd6b40a83eef2f4231168bdfa1d80b27ca");
    assert_eq!(check_digits(Some(digits), Some("eyJ.token"), CSRF_SALT).unwrap(), "eyJ.token");
}

#[test]
fn token_cookies_without_refresh_token() {
    let out = token_cookies(None, "eyJ.token", CSRF_SALT);
    assert_eq!(out.len(), 3);
    assert_eq!(stored(&out[0]), ("refresh_token", "", true));
}

#[test]
fn logout_cookie_and_form() {
    let out = logout_cookies();
    assert_eq!(out.len(), 2);
    assert_eq!(removed(&out[0]), "id_token");
    assert_eq!(removed(&out[1]), "refresh_token");
    let form = logout_form(Some("refresh-1"), "rust-web-app", "s3cret").unwrap();
    let pairs: Vec<(&str, &str)> = form.iter().map(|(k, v)| (k.as_str(), v.as_str())).collect();
    assert_eq!(
        pairs,
        vec![("client_id", "rust-web-app"), ("client_secret", "s3cret"), ("refresh_token", "refresh-1")]
    );
    assert_eq!(logout_form(None, "rust-web-app", "s3cret").unwrap_err(), SessionError::NoRefreshTokenInSession);
}

#[test]
fn claims_recovery() {
    assert!(matches!(recover_from_claims_failure(false, Some("r")), ClaimsRecovery::ReportFailure));
    assert!(matches!(
        recover_from_claims_failure(true, None),
        ClaimsRecovery::Refuse(SessionError::NoRefreshToken)
    ));
    match recover_from_claims_failure(true, Some("refresh-1")) {
        ClaimsRecovery::RefreshWith(t) => assert_eq!(t, "refresh-1"),
        other => panic!("unexpected {:?}", other),
    }
}

#[test]
fn claims_map_entries() {
    let claims = UserClaims { subject: "u-1".to_string(), email: None, name: Some("Hanako".to_string()) };
    let m = claims_to_map(&claims);
    let pairs: Vec<(&str, &str)> = m.iter().map(|(k, v)| (k.as_str(), v.as_str())).collect();
    assert_eq!(pairs, vec![("subject", "u-1"), ("name", "Hanako"), ("email", "")]);
}

#[test]
fn secret_cookie_fields() {
    let c = make_secret_cookie("id_token", "v".to_string(), "/".to_string(), false);
    assert_eq!(c.name, "id_token");
    assert_eq!(c.value, "v");
    assert_eq!(c.path, "/");
    assert!(!c.http_only);
    assert!(!c.secure);
    assert_eq!(c.same_site, SameSite::Lax);
}

#[test]
fn session_error_messages() {
    assert_eq!(SessionError::NoAuthorizationHeader.message(), "No Authorization Header");
    assert_eq!(SessionError::NoIdToken.message(), "No ID Token");
    assert_eq!(SessionError::IllegalCheckDigits.message(), "Illegal Check Digits");
    assert_eq!(SessionError::NoNonceInCookies.message(), "no nonce in the cookies!");
    assert_eq!(SessionError::NonceMismatch.message(), "two nonce are different!");
    assert_eq!(SessionError::NoState.message(), "No State / CSRF Token");
    assert_eq!(SessionError::InvalidState.message(), "Invalid State / CSRF Token");
    assert_eq!(SessionError::NoRefreshToken.message(), "Error, No reflesh token");
    assert_eq!(
        SessionError::NoRefreshTokenInSession.message(),
        "No refresh token found in session. Skipping Keycloak logout."
    );
}
