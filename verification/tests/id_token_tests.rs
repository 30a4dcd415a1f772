use openidconnect::{ClientId, IssuerUrl};
use rust_practice::digest::sha256text;
use rust_practice::id_token::{
    accept_renewed, authenticate, begin_login, finish_login, login_outcome, next_auth_step, verify_token_text,
    AuthStep, LoginSettings, TokenFailure, TokenVerifier, VerifiedToken,
};
use rust_practice::session::{CookieUpdate, SessionError, UserClaims};

const CSRF_SALT: &str = "another secret phrase";
const NONCE_SALT: &str = "a secret phrase";

/// Signed with RS256 (the signature is not real); expires in 2100, nonce `n-1`.
const LIVE_TOKEN: &str = "eyJhbGciOiJSUzI1NiJ9.eyJpc3MiOiJodHRwczovL2lzc3Vlci5leGFtcGxlIiwiYXVkIjpbImNsaWVudCJdLCJleHAiOjQxMDI0NDQ4MDAsImlhdCI6MSwic3ViIjoidS0xIiwiZW1haWwiOiJ1QGV4YW1wbGUuY29tIiwibm9uY2UiOiJuLTEifQ.c2ln";
/// Expired in 1970, no nonce.
const EXPIRED_TOKEN: &str = "eyJhbGciOiJSUzI1NiJ9.eyJpc3MiOiJodHRwczovL2lzc3Vlci5leGFtcGxlIiwiYXVkIjpbImNsaWVudCJdLCJleHAiOjEsImlhdCI6MSwic3ViIjoidS0xIiwiZW1haWwiOiJ1QGV4YW1wbGUuY29tIn0.c2ln";

fn token_checker(check_signature: bool) -> TokenVerifier<'static> {
    let v = openidconnect::core::CoreIdTokenVerifier::new_public_client(
        ClientId::new("client".to_string()),
        IssuerUrl::new("https://issuer.example".to_string()).unwrap(),
        openidconnect::core::CoreJsonWebKeySet::new(vec![]),
    );
    let v = if check_signature { v } else { v.insecure_disable_signature_check() };
    TokenVerifier { verifier: v }
}

fn stored_value(u: &CookieUpdate) -> (&str, &str) {
    match u {
        CookieUpdate::Store(c) => (c.name.as_str(), c.value.as_str()),
        CookieUpdate::Remove(_) => panic!("expected a stored cookie"),
    }
}

#[test]
fn authenticate_refuses_bad_check_digits() {
    let v = token_checker(false);
    assert!(matches!(
        authenticate(None, Some(LIVE_TOKEN), None, CSRF_SALT, &v),
        AuthStep::Refuse(SessionError::NoAuthorizationHeader)
    ));
    assert!(matches!(
        authenticate(Some("x"), None, None, CSRF_SALT, &v),
        AuthStep::Refuse(SessionError::NoIdToken)
    ));
    assert!(matches!(
        authenticate(Some("x"), Some(LIVE_TOKEN), None, CSRF_SALT, &v),
        AuthStep::Refuse(SessionError::IllegalCheckDigits)
    ));
}

#[test]
fn authenticate_reports_unreadable_token() {
    let v = token_checker(false);
    let digits = sha256text("not a token", CSRF_SALT);
    assert!(matches!(
        authenticate(Some(&digits), Some("not a token"), Some("r"), CSRF_SALT, &v),
        AuthStep::Fail(TokenFailure::Malformed(_))
    ));
}

#[test]
fn authenticate_accepts_live_token() {
    let v = token_checker(false);
    let digits = sha256text(LIVE_TOKEN, CSRF_SALT);
    match authenticate(Some(&digits), Some(LIVE_TOKEN), None, CSRF_SALT, &v) {
        AuthStep::Accept(c) => {
            assert_eq!(c.subject, "u-1");
            assert_eq!(c.email.as_deref(), Some("u@example.com"));
            assert_eq!(c.name, None);
        }
        other => panic!("unexpected {:?}", other),
    }
}

#[test]
fn authenticate_rejects_unsigned_token() {
    let v = token_checker(true);
    let digits = sha256text(LIVE_TOKEN, CSRF_SALT);
    assert!(matches!(
        authenticate(Some(&digits), Some(LIVE_TOKEN), Some("r"), CSRF_SALT, &v),
        AuthStep::Fail(TokenFailure::Rejected(_))
    ));
}

#[test]
fn authenticate_renews_expired_token() {
    let v = token_checker(false);
    let digits = sha256text(EXPIRED_TOKEN, CSRF_SALT);
    match authenticate(Some(&digits), Some(EXPIRED_TOKEN), Some("refresh-1"), CSRF_SALT, &v) {
        AuthStep::RefreshWith(t) => assert_eq!(t, "refresh-1"),
        other => panic!("unexpected {:?}", other),
    }
    assert!(matches!(
        authenticate(Some(&digits), Some(EXPIRED_TOKEN), None, CSRF_SALT, &v),
        AuthStep::Refuse(SessionError::NoRefreshToken)
    ));
}

#[test]
fn verify_token_text_cases() {
    let v = token_checker(false);
    assert!(matches!(verify_token_text("a.b", &v), Err(TokenFailure::Malformed(_))));
    match verify_token_text(LIVE_TOKEN, &v) {
        Ok(t) => assert_eq!(t.nonce.as_deref(), Some("n-1")),
        Err(e) => panic!("unexpected {:?}", e),
    }
    assert!(matches!(verify_token_text(EXPIRED_TOKEN, &v), Err(TokenFailure::Expired(_))));
}

#[test]
fn finish_login_checks_nonce() {
    let v = token_checker(false);
    let cookie = sha256text("n-1", NONCE_SALT);
    match finish_login(LIVE_TOKEN, Some("refresh-1"), Some(&cookie), NONCE_SALT, CSRF_SALT, &v) {
        Ok((t, out)) => {
            assert_eq!(t.claims.subject, "u-1");
            assert_eq!(out.len(), 5);
            assert_eq!(stored_value(&out[2]), ("refresh_token", "refresh-1"));
            assert_eq!(stored_value(&out[3]), ("id_token", LIVE_TOKEN));
            let digits = sha256text(LIVE_TOKEN, CSRF_SALT);
            assert_eq!(stored_value(&out[4]), ("check_digits", digits.as_str()));
        }
        Err(e) => panic!("unexpected {:?}", e),
    }
    let other = sha256text("n-2", NONCE_SALT);
    assert!(matches!(
        finish_login(LIVE_TOKEN, None, Some(&other), NONCE_SALT, CSRF_SALT, &v),
        Err(TokenFailure::NonceRefused(SessionError::NonceMismatch))
    ));
    assert!(matches!(
        finish_login(LIVE_TOKEN, None, None, NONCE_SALT, CSRF_SALT, &v),
        Err(TokenFailure::NonceRefused(SessionError::NoNonceInCookies))
    ));
    assert!(matches!(
        finish_login(EXPIRED_TOKEN, None, Some(&cookie), NONCE_SALT, CSRF_SALT, &v),
        Err(TokenFailure::Expired(_))
    ));
    assert!(matches!(
        finish_login("garbage", None, Some(&cookie), NONCE_SALT, CSRF_SALT, &v),
        Err(TokenFailure::Malformed(_))
    ));
}

#[test]
fn accept_renewed_stores_new_tokens() {
    let v = token_checker(false);
    match accept_renewed(LIVE_TOKEN, None, CSRF_SALT, &v) {
        Ok((c, out)) => {
            assert_eq!(c.subject, "u-1");
            assert_eq!(out.len(), 3);
            assert_eq!(stored_value(&out[0]), ("refresh_token", ""));
            assert_eq!(stored_value(&out[1]), ("id_token", LIVE_TOKEN));
        }
        Err(e) => panic!("unexpected {:?}", e),
    }
    assert!(matches!(accept_renewed(EXPIRED_TOKEN, None, CSRF_SALT, &v), Err(TokenFailure::Expired(_))));
    assert!(matches!(accept_renewed("x", None, CSRF_SALT, &v), Err(TokenFailure::Malformed(_))));
}

#[test]
fn next_step_after_verdict() {
    let token = VerifiedToken {
        claims: UserClaims { subject: "u-2".to_string(), email: None, name: Some("Taro".to_string()) },
        nonce: None,
    };
    match next_auth_step(Ok(token), None) {
        AuthStep::Accept(c) => assert_eq!(c.subject, "u-2"),
        other => panic!("unexpected {:?}", other),
    }
    match next_auth_step(Err(TokenFailure::Expired("Expired: old".to_string())), Some("r-9")) {
        AuthStep::RefreshWith(t) => assert_eq!(t, "r-9"),
        other => panic!("unexpected {:?}", other),
    }
    assert!(matches!(
        next_auth_step(Err(TokenFailure::Expired("Expired: old".to_string())), None),
        AuthStep::Refuse(SessionError::NoRefreshToken)
    ));
    match next_auth_step(Err(TokenFailure::Rejected("Invalid signature".to_string())), Some("r-9")) {
        AuthStep::Fail(TokenFailure::Rejected(m)) => assert_eq!(m, "Invalid signature"),
        other => panic!("unexpected {:?}", other),
    }
    match next_auth_step(Err(TokenFailure::Malformed("bad".to_string())), None) {
        AuthStep::Fail(TokenFailure::Malformed(m)) => assert_eq!(m, "bad"),
        other => panic!("unexpected {:?}", other),
    }
}

#[test]
fn login_outcome_compares_nonce() {
    let token = || VerifiedToken {
        claims: UserClaims { subject: "u-3".to_string(), email: None, name: None },
        nonce: Some("n-7".to_string()),
    };
    let cookie = sha256text("n-7", NONCE_SALT);
    match login_outcome(Ok(token()), "tok", None, Some(&cookie), NONCE_SALT, CSRF_SALT) {
        Ok((t, out)) => {
            assert_eq!(t.claims.subject, "u-3");
            assert_eq!(out.len(), 5);
            assert_eq!(stored_value(&out[3]), ("id_token", "tok"));
        }
        Err(e) => panic!("unexpected {:?}", e),
    }
    assert!(matches!(
        login_outcome(Ok(token()), "tok", None, Some("wrong"), NONCE_SALT, CSRF_SALT),
        Err(TokenFailure::NonceRefused(SessionError::NonceMismatch))
    ));
    match login_outcome(Err(TokenFailure::Rejected("no".to_string())), "tok", None, Some(&cookie), NONCE_SALT, CSRF_SALT) {
        Err(TokenFailure::Rejected(m)) => assert_eq!(m, "no"),
        other => panic!("unexpected {:?}", other),
    }
}

fn login_settings(endpoint: &str) -> LoginSettings {
    LoginSettings {
        issuer: "https://issuer.example".to_string(),
        authorization_endpoint: endpoint.to_string(),
        client_id: "client".to_string(),
        redirect_url: "http://localhost:18080/callback".to_string(),
    }
}

#[test]
fn login_url_carries_state_and_nonce() {
    let (url, cookies) = begin_login(&login_settings("https://issuer.example/auth"), CSRF_SALT, NONCE_SALT).unwrap();
    assert!(url.starts_with("https://issuer.example/auth?"));
    assert!(url.contains("response_type=code"));
    assert!(url.contains("client_id=client"));
    assert!(url.contains("scope=openid"));
    let param = |key: &str| -> String {
        let start = url.find(&format!("&{}=", key)).or_else(|| url.find(&format!("?{}=", key))).unwrap() + key.len() + 2;
        url[start..].split('&').next().unwrap().to_string()
    };
    let state = param("state");
    let nonce = param("nonce");
    assert_eq!(cookies.len(), 2);
    assert_eq!(stored_value(&cookies[0]), ("csrf_token", sha256text(&state, CSRF_SALT).as_str()));
    assert_eq!(stored_value(&cookies[1]), ("nonce", sha256text(&nonce, NONCE_SALT).as_str()));
}

#[test]
fn login_refuses_bad_endpoint() {
    assert!(begin_login(&login_settings("not a url"), CSRF_SALT, NONCE_SALT).is_err());
}
