//! The decisions of a stateless OpenID Connect session kept in cookies:
//! which cookies to set, and whether a request's tokens, state and nonce
//! match the salted digests that earlier responses stored.

use vstd::prelude::*;
use crate::digest::{salted_digest, sha256text};

verus! {

/// How a browser may send a cookie along with cross-site requests.
#[derive(Debug, Clone, Copy, PartialEq, Eq, Structural)]
pub enum SameSite {
    Strict,
    Lax,
    /// Sent with every request (the browser's `None` policy).
    Unrestricted,
}

/// A cookie that the session sets.
#[derive(Debug)]
pub struct SessionCookie {
    pub name: String,
    pub value: String,
    pub path: String,
    pub http_only: bool,
    pub secure: bool,
    pub same_site: SameSite,
}

/// A change to the browser's cookies.
#[derive(Debug)]
pub enum CookieUpdate {
    /// Set (or replace) a cookie.
    Store(SessionCookie),
    /// Remove the cookie of this name.
    Remove(String),
}

/// Why a request is refused.
#[derive(Debug, Clone, Copy, PartialEq, Eq, Structural)]
pub enum SessionError {
    /// The request carries no `Authorization: Bearer` header.
    NoAuthorizationHeader,
    /// The request carries no ID token cookie.
    NoIdToken,
    /// The bearer token is not the check digits of the ID token.
    IllegalCheckDigits,
    /// The request carries no nonce cookie.
    NoNonceInCookies,
    /// The nonce of the ID token does not match the nonce cookie.
    NonceMismatch,
    /// The request carries no CSRF state cookie.
    NoState,
    /// The returned state does not match the CSRF state cookie.
    InvalidState,
    /// The ID token expired and no refresh token cookie is there.
    NoRefreshToken,
    /// Logging out needs a refresh token cookie, and there is none.
    NoRefreshTokenInSession,
}

impl SessionError {
    /// The message that the refusal carries.
    pub fn message(&self) -> (m: String)
        ensures
            m@ == error_message(*self),
    {
        match self {
            SessionError::NoAuthorizationHeader => String::from_str("No Authorization Header"),
            SessionError::NoIdToken => String::from_str("No ID Token"),
            SessionError::IllegalCheckDigits => String::from_str("Illegal Check Digits"),
            SessionError::NoNonceInCookies => String::from_str("no nonce in the cookies!"),
            SessionError::NonceMismatch => String::from_str("two nonce are different!"),
            SessionError::NoState => String::from_str("No State / CSRF Token"),
            SessionError::InvalidState => String::from_str("Invalid State / CSRF Token"),
            SessionError::NoRefreshToken => String::from_str("Error, No reflesh token"),
            SessionError::NoRefreshTokenInSession => String::from_str(
                "No refresh token found in session. Skipping Keycloak logout.",
            ),
        }
    }
}

/// The message of each refusal.
pub open spec fn error_message(e: SessionError) -> Seq<char> {
    match e {
        SessionError::NoAuthorizationHeader => "No Authorization Header"@,
        SessionError::NoIdToken => "No ID Token"@,
        SessionError::IllegalCheckDigits => "Illegal Check Digits"@,
        SessionError::NoNonceInCookies => "no nonce in the cookies!"@,
        SessionError::NonceMismatch => "two nonce are different!"@,
        SessionError::NoState => "No State / CSRF Token"@,
        SessionError::InvalidState => "Invalid State / CSRF Token"@,
        SessionError::NoRefreshToken => "Error, No reflesh token"@,
        SessionError::NoRefreshTokenInSession => "No refresh token found in session. Skipping Keycloak logout."@,
    }
}

/// The characters of an optional text.
pub open spec fn opt_view(o: Option<&str>) -> Option<Seq<char>> {
    match o {
        Some(s) => Some(s@),
        None => None,
    }
}

/// What `check_digits` answers: the ID token from the cookie, if the bearer
/// token is its salted digest.
pub open spec fn digits_verdict(bearer: Option<Seq<char>>, id_token: Option<Seq<char>>, salt: Seq<char>) -> Result<Seq<char>, SessionError> {
    match bearer {
        None => Err(SessionError::NoAuthorizationHeader),
        Some(b) => match id_token {
            None => Err(SessionError::NoIdToken),
            Some(t) => if b == salted_digest(t, salt) {
                Ok(t)
            } else {
                Err(SessionError::IllegalCheckDigits)
            },
        },
    }
}

/// What `check_nonce` answers: the nonce cookie must hold the salted digest
/// of the ID token's nonce (the empty text where the token has none).
pub open spec fn nonce_verdict(nonce: Option<Seq<char>>, cookie: Option<Seq<char>>, salt: Seq<char>) -> Result<(), SessionError> {
    let expected = match nonce {
        Some(n) => salted_digest(n, salt),
        None => Seq::empty(),
    };
    match cookie {
        None => Err(SessionError::NoNonceInCookies),
        Some(c) => if c == expected {
            Ok(())
        } else {
            Err(SessionError::NonceMismatch)
        },
    }
}

/// What `check_state` answers: the CSRF cookie must hold the salted digest
/// of the state that the identity provider sent back.
pub open spec fn state_verdict(cookie: Option<Seq<char>>, state: Seq<char>, salt: Seq<char>) -> Result<(), SessionError> {
    match cookie {
        None => Err(SessionError::NoState),
        Some(c) => if c == salted_digest(state, salt) {
            Ok(())
        } else {
            Err(SessionError::InvalidState)
        },
    }
}

/// The check digits stored beside an ID token let a request that echoes
/// them as its bearer token through, and the answer is that ID token.
pub proof fn lemma_issued_check_digits_accepted(id_token: Seq<char>, salt: Seq<char>)
    ensures
        digits_verdict(Some(salted_digest(id_token, salt)), Some(id_token), salt) == Ok::<Seq<char>, SessionError>(id_token),
{
}

/// A bearer token other than the check digits of the ID token is refused.
pub proof fn lemma_forged_check_digits_refused(bearer: Seq<char>, id_token: Seq<char>, salt: Seq<char>)
    requires
        bearer != salted_digest(id_token, salt),
    ensures
        digits_verdict(Some(bearer), Some(id_token), salt) == Err::<Seq<char>, SessionError>(SessionError::IllegalCheckDigits),
{
}

/// The nonce cookie that a login stores accepts an ID token that carries
/// the same nonce.
pub proof fn lemma_login_nonce_accepted(nonce: Seq<char>, salt: Seq<char>)
    ensures
        nonce_verdict(Some(nonce), Some(salted_digest(nonce, salt)), salt) == Ok::<(), SessionError>(()),
{
}

/// The CSRF cookie that a login stores accepts the state that was sent to
/// the identity provider.
pub proof fn lemma_login_state_accepted(state: Seq<char>, salt: Seq<char>)
    ensures
        state_verdict(Some(salted_digest(state, salt)), state, salt) == Ok::<(), SessionError>(()),
{
}

/// Whether `c` is the session cookie `name = value` for the whole site:
/// path `/`, not restricted to HTTPS, same-site policy `Lax`.
pub open spec fn is_session_cookie(c: SessionCookie, name: Seq<char>, value: Seq<char>, http_only: bool) -> bool {
    &&& c.name@ == name
    &&& c.value@ == value
    &&& c.path@ == "/"@
    &&& c.http_only == http_only
    &&& !c.secure
    &&& c.same_site is Lax
}

/// Whether `u` sets the session cookie `name = value`.
pub open spec fn sets_cookie(u: CookieUpdate, name: Seq<char>, value: Seq<char>, http_only: bool) -> bool {
    u matches CookieUpdate::Store(c) && is_session_cookie(c, name, value, http_only)
}

/// Whether `u` removes the cookie `name`.
pub open spec fn removes_cookie(u: CookieUpdate, name: Seq<char>) -> bool {
    u matches CookieUpdate::Remove(n) && n@ == name
}

/// Whether `out` stores the salted digests of the CSRF state and of the
/// nonce of a login, before the browser goes to the identity provider.
pub open spec fn is_login_cookies(out: Seq<CookieUpdate>, csrf_secret: Seq<char>, nonce_secret: Seq<char>, csrf_salt: Seq<char>, nonce_salt: Seq<char>) -> bool {
    &&& out.len() == 2
    &&& sets_cookie(out[0], "csrf_token"@, salted_digest(csrf_secret, csrf_salt), true)
    &&& sets_cookie(out[1], "nonce"@, salted_digest(nonce_secret, nonce_salt), true)
}

/// Whether `out` stores a freshly issued token set: the refresh token (the
/// empty text where none was issued), the ID token, and the check digits of
/// the ID token, which scripts may read.
pub open spec fn is_token_cookies(out: Seq<CookieUpdate>, refresh_token: Option<Seq<char>>, id_token: Seq<char>, csrf_salt: Seq<char>) -> bool {
    &&& out.len() == 3
    &&& sets_cookie(out[0], "refresh_token"@, match refresh_token { Some(r) => r, None => Seq::empty() }, true)
    &&& sets_cookie(out[1], "id_token"@, id_token, true)
    &&& sets_cookie(out[2], "check_digits"@, salted_digest(id_token, csrf_salt), false)
}

/// Whether `out` is the cookie change after a successful login callback:
/// the CSRF state and nonce cookies go, the token cookies come.
pub open spec fn is_callback_cookies(out: Seq<CookieUpdate>, refresh_token: Option<Seq<char>>, id_token: Seq<char>, csrf_salt: Seq<char>) -> bool {
    &&& out.len() == 5
    &&& removes_cookie(out[0], "csrf_token"@)
    &&& removes_cookie(out[1], "nonce"@)
    &&& is_token_cookies(out.subrange(2, 5), refresh_token, id_token, csrf_salt)
}

/// A cookie named `name` with value `value` for `path`, sent over plain
/// HTTP too, same-site policy `Lax`, hidden from scripts if `is_http_only`.
pub fn make_secret_cookie(name: &str, value: String, path: String, is_http_only: bool) -> (c: SessionCookie)
    ensures
        c.name@ == name@,
        c.value == value,
        c.path == path,
        c.http_only == is_http_only,
        !c.secure,
        c.same_site is Lax,
{
    SessionCookie {
        name: String::from_str(name),
        value,
        path,
        http_only: is_http_only,
        secure: false,
        same_site: SameSite::Lax,
    }
}

fn site_cookie(name: &str, value: String, is_http_only: bool) -> (u: CookieUpdate)
    ensures
        sets_cookie(u, name@, value@, is_http_only),
{
    CookieUpdate::Store(make_secret_cookie(name, value, String::from_str("/"), is_http_only))
}

/// Checks the check digits of a request: the bearer token must be the salted
/// digest of the ID token in the cookie; answers that ID token.
pub fn check_digits(bearer: Option<&str>, id_token_cookie: Option<&str>, csrf_salt: &str) -> (r: Result<String, SessionError>)
    ensures
        match r {
            Ok(t) => digits_verdict(opt_view(bearer), opt_view(id_token_cookie), csrf_salt@) == Ok::<Seq<char>, SessionError>(t@),
            Err(e) => digits_verdict(opt_view(bearer), opt_view(id_token_cookie), csrf_salt@) == Err::<Seq<char>, SessionError>(e),
        },
{
    let b = match bearer {
        Some(b) => b,
        None => return Err(SessionError::NoAuthorizationHeader),
    };
    let token = match id_token_cookie {
        Some(t) => t,
        None => return Err(SessionError::NoIdToken),
    };
    if String::from_str(b) != sha256text(token, csrf_salt) {
        return Err(SessionError::IllegalCheckDigits);
    }
    Ok(String::from_str(token))
}

/// Checks the nonce of an ID token against the nonce cookie.
pub fn check_nonce(nonce: Option<&str>, nonce_cookie: Option<&str>, nonce_salt: &str) -> (r: Result<(), SessionError>)
    ensures
        r == nonce_verdict(opt_view(nonce), opt_view(nonce_cookie), nonce_salt@),
{
    let expected = match nonce {
        Some(n) => sha256text(n, nonce_salt),
        None => String::new(),
    };
    match nonce_cookie {
        Some(c) => {
            if String::from_str(c) == expected {
                Ok(())
            } else {
                Err(SessionError::NonceMismatch)
            }
        },
        None => Err(SessionError::NoNonceInCookies),
    }
}

/// Checks the state that the identity provider sent back against the CSRF
/// cookie.
pub fn check_state(csrf_cookie: Option<&str>, state: &str, csrf_salt: &str) -> (r: Result<(), SessionError>)
    ensures
        r == state_verdict(opt_view(csrf_cookie), state@, csrf_salt@),
{
    match csrf_cookie {
        Some(c) => {
            if String::from_str(c) != sha256text(state, csrf_salt) {
                Err(SessionError::InvalidState)
            } else {
                Ok(())
            }
        },
        None => Err(SessionError::NoState),
    }
}

/// The cookies set before the browser is sent to the identity provider: the
/// salted digests of the CSRF state and of the nonce.
pub fn login_cookies(csrf_secret: &str, nonce_secret: &str, csrf_salt: &str, nonce_salt: &str) -> (out: Vec<CookieUpdate>)
    ensures
        is_login_cookies(out@, csrf_secret@, nonce_secret@, csrf_salt@, nonce_salt@),
{
    let mut out: Vec<CookieUpdate> = Vec::new();
    out.push(site_cookie("csrf_token", sha256text(csrf_secret, csrf_salt), true));
    out.push(site_cookie("nonce", sha256text(nonce_secret, nonce_salt), true));
    out
}

/// The cookies that hold a freshly issued token set: the refresh token (the
/// empty text where none was issued), the ID token, and the check digits of
/// the ID token, which scripts may read.
pub fn token_cookies(refresh_token: Option<&str>, id_token: &str, csrf_salt: &str) -> (out: Vec<CookieUpdate>)
    ensures
        is_token_cookies(out@, opt_view(refresh_token), id_token@, csrf_salt@),
{
    let refresh = match refresh_token {
        Some(r) => String::from_str(r),
        None => String::new(),
    };
    let mut out: Vec<CookieUpdate> = Vec::new();
    out.push(site_cookie("refresh_token", refresh, true));
    out.push(site_cookie("id_token", String::from_str(id_token), true));
    out.push(site_cookie("check_digits", sha256text(id_token, csrf_salt), false));
    out
}

/// The cookie changes after a successful login callback: the CSRF state and
/// nonce cookies go, the token cookies come.
pub fn callback_cookies(refresh_token: Option<&str>, id_token: &str, csrf_salt: &str) -> (out: Vec<CookieUpdate>)
    ensures
        is_callback_cookies(out@, opt_view(refresh_token), id_token@, csrf_salt@),
{
    let mut out: Vec<CookieUpdate> = Vec::new();
    out.push(CookieUpdate::Remove(String::from_str("csrf_token")));
    out.push(CookieUpdate::Remove(String::from_str("nonce")));
    let mut tokens = token_cookies(refresh_token, id_token, csrf_salt);
    let ghost issued = tokens@;
    out.append(&mut tokens);
    assert(out@.subrange(2, 5) =~= issued);
    out
}

/// The cookie changes after the identity provider confirmed a logout: the
/// ID token and refresh token cookies go.
pub fn logout_cookies() -> (out: Vec<CookieUpdate>)
    ensures
        out@.len() == 2,
        removes_cookie(out@[0], "id_token"@),
        removes_cookie(out@[1], "refresh_token"@),
{
    let mut out: Vec<CookieUpdate> = Vec::new();
    out.push(CookieUpdate::Remove(String::from_str("id_token")));
    out.push(CookieUpdate::Remove(String::from_str("refresh_token")));
    out
}

/// The form of the back-channel logout request: the client's credentials
/// and the refresh token from the cookie, which must be there.
pub fn logout_form(refresh_cookie: Option<&str>, client_id: &str, client_secret: &str) -> (r: Result<Vec<(String, String)>, SessionError>)
    ensures
        refresh_cookie is None ==> r matches Err(SessionError::NoRefreshTokenInSession),
        refresh_cookie matches Some(t) ==> (r matches Ok(form) && form@.len() == 3
            && form@[0].0@ == "client_id"@ && form@[0].1@ == client_id@
            && form@[1].0@ == "client_secret"@ && form@[1].1@ == client_secret@
            && form@[2].0@ == "refresh_token"@ && form@[2].1@ == t@),
{
    match refresh_cookie {
        Some(t) => {
            let mut form: Vec<(String, String)> = Vec::new();
            form.push((String::from_str("client_id"), String::from_str(client_id)));
            form.push((String::from_str("client_secret"), String::from_str(client_secret)));
            form.push((String::from_str("refresh_token"), String::from_str(t)));
            Ok(form)
        },
        None => Err(SessionError::NoRefreshTokenInSession),
    }
}

/// What to do when the claims of an ID token fail verification.
#[derive(Debug)]
pub enum ClaimsRecovery {
    /// The token expired: ask for a new token set with this refresh token.
    RefreshWith(String),
    /// The token expired and no refresh token is there.
    Refuse(SessionError),
    /// The failure is not an expiry: report the verifier's own error.
    ReportFailure,
}

/// Decides how to go on after the claims of an ID token failed
/// verification: only an expired token is renewed, with the refresh token
/// from the cookie.
pub fn recover_from_claims_failure(expired: bool, refresh_cookie: Option<&str>) -> (r: ClaimsRecovery)
    ensures
        !expired ==> r is ReportFailure,
        expired && refresh_cookie is None ==> r matches ClaimsRecovery::Refuse(SessionError::NoRefreshToken),
        expired && refresh_cookie is Some ==> (r matches ClaimsRecovery::RefreshWith(t) && t@ == refresh_cookie->0@),
{
    if !expired {
        return ClaimsRecovery::ReportFailure;
    }
    match refresh_cookie {
        Some(t) => ClaimsRecovery::RefreshWith(String::from_str(t)),
        None => ClaimsRecovery::Refuse(SessionError::NoRefreshToken),
    }
}

/// The claims of an ID token that the protected API answers with.
#[derive(Debug)]
pub struct UserClaims {
    pub subject: String,
    pub email: Option<String>,
    pub name: Option<String>,
}

/// The entries `subject`, `name` and `email` of the API's answer; a missing
/// name or email is the empty text.
pub fn claims_to_map(claims: &UserClaims) -> (out: Vec<(String, String)>)
    ensures
        out@.len() == 3,
        out@[0].0@ == "subject"@ && out@[0].1@ == claims.subject@,
        out@[1].0@ == "name"@ && out@[1].1@ == match claims.name { Some(n) => n@, None => Seq::empty() },
        out@[2].0@ == "email"@ && out@[2].1@ == match claims.email { Some(e) => e@, None => Seq::empty() },
{
    let name = match &claims.name {
        Some(n) => n.clone(),
        None => String::new(),
    };
    let email = match &claims.email {
        Some(e) => e.clone(),
        None => String::new(),
    };
    let mut out: Vec<(String, String)> = Vec::new();
    out.push((String::from_str("subject"), claims.subject.clone()));
    out.push((String::from_str("name"), name));
    out.push((String::from_str("email"), email));
    out
}

} // verus!
