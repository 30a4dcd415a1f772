//! Checking the ID tokens of the session: the token of a request, the token
//! that a login callback brings, and the token of a renewed token set; and
//! the start of a login.

use vstd::prelude::*;
use crate::session::{
    callback_cookies, check_digits, check_nonce, digits_verdict, is_callback_cookies, is_login_cookies,
    is_token_cookies, login_cookies, nonce_verdict, opt_view, recover_from_claims_failure, token_cookies,
    ClaimsRecovery, CookieUpdate, SessionError, UserClaims,
};
use openidconnect::ClaimsVerificationError::Expired;
use openidconnect::{AuthUrl, AuthenticationFlow, ClientId, CsrfToken, IssuerUrl, Nonce, RedirectUrl, Scope};

verus! {

/// The verifier of ID tokens that the OpenID Connect client hands out: the
/// client's identity, the issuer, its signing keys and the clock. The
/// verifier's generic type is bounded by traits of `openidconnect`, so it is
/// held here as a whole, its contents opaque.
#[verifier::external_body]
pub struct TokenVerifier<'a> {
    pub verifier: openidconnect::core::CoreIdTokenVerifier<'a>,
}

/// Whether `openidconnect` reads `s` as an ID token (a compact JWT whose
/// payload holds ID token claims).
pub uninterp spec fn id_token_parses(s: Seq<char>) -> bool;

/// The claims that the ID token text `s` carries, verified or not: the
/// subject, the email, the name without a language tag, and the nonce.
pub uninterp spec fn id_token_claims(s: Seq<char>) -> (Seq<char>, Option<Seq<char>>, Option<Seq<char>>, Option<Seq<char>>);

/// The characters of an optional owned text.
pub open spec fn opt_string_view(o: Option<String>) -> Option<Seq<char>> {
    match o {
        Some(s) => Some(s@),
        None => None,
    }
}

/// The claims read out of a verified token, as characters.
pub open spec fn claims_view(c: (String, Option<String>, Option<String>, Option<String>)) -> (Seq<char>, Option<Seq<char>>, Option<Seq<char>>, Option<Seq<char>>) {
    (c.0@, opt_string_view(c.1), opt_string_view(c.2), opt_string_view(c.3))
}

/// How the verification of an ID token failed.
pub enum FailureKind {
    /// The text is not an ID token.
    Malformed,
    /// The token has expired.
    Expired,
    /// The verifier refused the token for another reason.
    Rejected,
}

/// The answer to the verifier's nonce check: every nonce, or none, is
/// accepted; the session compares the nonce itself where it must.
fn accept_any_nonce() -> (r: Result<(), String>)
    ensures
        r is Ok,
{
    Ok(())
}

/// Calls `<CoreIdToken as FromStr>::from_str` on `text` and then
/// `IdToken::claims`, which checks the signature, the issuer, the audience
/// and the times against the clock, and hands the nonce to
/// `accept_any_nonce`; answers the subject, email, name (without a language
/// tag) and nonce of the accepted claims, or the kind of failure with the
/// message. The contract claims that reading fails exactly where the text
/// is no ID token, and that accepted claims are those the text carries;
/// whether they are accepted rests on the clock and the keys, and is not
/// stated.
#[verifier::external_body]
fn verify_id_token(text: &str, verifier: &TokenVerifier) -> (r: Result<(String, Option<String>, Option<String>, Option<String>), (FailureKind, String)>)
    ensures
        (r matches Err((FailureKind::Malformed, _))) <==> !id_token_parses(text@),
        r matches Ok(c) ==> claims_view(c) == id_token_claims(text@),
{
    let token = text.parse::<openidconnect::core::CoreIdToken>().map_err(|e| (FailureKind::Malformed, e.to_string()))?;
    match token.claims(&verifier.verifier, |_: Option<&Nonce>| accept_any_nonce()) {
        Ok(c) => Ok((c.subject().to_string(), c.email().map(|e| e.to_string()), c.name().and_then(|n| n.get(None)).map(|n| n.to_string()), c.nonce().map(|n| n.secret().clone()))),
        Err(e) => Err((match &e { Expired(_) => FailureKind::Expired, _ => FailureKind::Rejected }, e.to_string())),
    }
}

/// Why the ID token of a request or of a callback was not accepted.
#[derive(Debug)]
pub enum TokenFailure {
    /// The text is not an ID token (the reader's message).
    Malformed(String),
    /// The token has expired (the verifier's message).
    Expired(String),
    /// The verifier refused the token for another reason (its message).
    Rejected(String),
    /// The nonce of the token does not match the nonce cookie.
    NonceRefused(SessionError),
}

/// The verified claims of an ID token, with the nonce that it carries.
#[derive(Debug)]
pub struct VerifiedToken {
    pub claims: UserClaims,
    pub nonce: Option<String>,
}

/// The subject, email and name of claims, as characters.
pub open spec fn user_view(c: UserClaims) -> (Seq<char>, Option<Seq<char>>, Option<Seq<char>>) {
    (c.subject@, opt_string_view(c.email), opt_string_view(c.name))
}

/// The subject, email, name and nonce of a verified token, as characters.
pub open spec fn token_view(v: VerifiedToken) -> (Seq<char>, Option<Seq<char>>, Option<Seq<char>>, Option<Seq<char>>) {
    (v.claims.subject@, opt_string_view(v.claims.email), opt_string_view(v.claims.name), opt_string_view(v.nonce))
}

/// The subject, email and name among the claims of an ID token text.
pub open spec fn text_user_claims(s: Seq<char>) -> (Seq<char>, Option<Seq<char>>, Option<Seq<char>>) {
    (id_token_claims(s).0, id_token_claims(s).1, id_token_claims(s).2)
}

/// Whether `verdict` is one that verifying the ID token text `t` can give:
/// reading fails exactly where `t` is no ID token, the nonce is not looked
/// at, and accepted claims are those that `t` carries.
pub open spec fn verdict_fits(verdict: Result<VerifiedToken, TokenFailure>, t: Seq<char>) -> bool {
    &&& (verdict matches Err(TokenFailure::Malformed(_))) <==> !id_token_parses(t)
    &&& !(verdict matches Err(TokenFailure::NonceRefused(_)))
    &&& verdict matches Ok(v) ==> token_view(v) == id_token_claims(t)
}

/// Reads the ID token text and verifies its claims, whatever nonce it
/// carries.
pub fn verify_token_text(text: &str, verifier: &TokenVerifier) -> (r: Result<VerifiedToken, TokenFailure>)
    ensures
        (r matches Err(TokenFailure::Malformed(_))) <==> !id_token_parses(text@),
        !(r matches Err(TokenFailure::NonceRefused(_))),
        r matches Ok(v) ==> token_view(v) == id_token_claims(text@),
        verdict_fits(r, text@),
{
    match verify_id_token(text, verifier) {
        Ok((subject, email, name, nonce)) => Ok(VerifiedToken { claims: UserClaims { subject, email, name }, nonce }),
        Err((FailureKind::Malformed, m)) => Err(TokenFailure::Malformed(m)),
        Err((FailureKind::Expired, m)) => Err(TokenFailure::Expired(m)),
        Err((FailureKind::Rejected, m)) => Err(TokenFailure::Rejected(m)),
    }
}

/// The next step in authenticating a request to the protected API.
#[derive(Debug)]
pub enum AuthStep {
    /// The ID token is valid: answer with its claims.
    Accept(UserClaims),
    /// The ID token has expired: renew the token set with this refresh token.
    RefreshWith(String),
    /// The request is refused.
    Refuse(SessionError),
    /// The ID token was not accepted.
    Fail(TokenFailure),
}

/// Whether `r` is the next step of an authentication after the verdict
/// `verdict`, with the refresh token cookie `refresh`: accepted claims are
/// answered; an expired token is renewed with the refresh token, or refused
/// without one; any other failure is reported.
pub open spec fn is_auth_step(verdict: Result<VerifiedToken, TokenFailure>, refresh: Option<Seq<char>>, r: AuthStep) -> bool {
    match verdict {
        Ok(v) => r == AuthStep::Accept(v.claims),
        Err(TokenFailure::Expired(_)) => match refresh {
            Some(c) => r matches AuthStep::RefreshWith(t) && t@ == c,
            None => r == AuthStep::Refuse(SessionError::NoRefreshToken),
        },
        Err(f) => r == AuthStep::Fail(f),
    }
}

/// The refresh token cookie matters only for an expired token: for any
/// other verdict the step is the same with the cookie as without it.
pub proof fn lemma_refresh_cookie_only_on_expiry(
    verdict: Result<VerifiedToken, TokenFailure>,
    x: Seq<char>,
    with_cookie: AuthStep,
    without_cookie: AuthStep,
)
    requires
        !(verdict matches Err(TokenFailure::Expired(_))),
        is_auth_step(verdict, Some(x), with_cookie),
        is_auth_step(verdict, None, without_cookie),
    ensures
        with_cookie == without_cookie,
{
}

/// A verified token is accepted, with its own claims, and only a verified
/// token is: whatever the refresh token cookie.
pub proof fn lemma_verified_token_accepted(
    verdict: Result<VerifiedToken, TokenFailure>,
    refresh: Option<Seq<char>>,
    r: AuthStep,
)
    requires
        is_auth_step(verdict, refresh, r),
    ensures
        (r is Accept) <==> (verdict is Ok),
        verdict matches Ok(v) ==> r == AuthStep::Accept(v.claims),
{
}

/// Authenticates a request by its ID token: the bearer token must be the
/// check digits of the ID token cookie, and the token must read and verify,
/// whatever nonce it carries. Accepted claims are those of the token; only
/// an expired token is renewed, with the refresh token cookie.
pub fn authenticate(
    bearer: Option<&str>,
    id_token_cookie: Option<&str>,
    refresh_cookie: Option<&str>,
    csrf_salt: &str,
    verifier: &TokenVerifier,
) -> (r: AuthStep)
    ensures
        digits_verdict(opt_view(bearer), opt_view(id_token_cookie), csrf_salt@) matches Err(e)
            ==> r == AuthStep::Refuse(e),
        digits_verdict(opt_view(bearer), opt_view(id_token_cookie), csrf_salt@) matches Ok(t) ==> {
            &&& (r matches AuthStep::Fail(TokenFailure::Malformed(_))) <==> !id_token_parses(t)
            &&& !(r matches AuthStep::Fail(TokenFailure::NonceRefused(_)))
            &&& r matches AuthStep::Accept(c) ==> user_view(c) == text_user_claims(t)
            &&& r matches AuthStep::RefreshWith(x) ==> (refresh_cookie matches Some(c) && x@ == c@)
            &&& r matches AuthStep::Refuse(e) ==> (e == SessionError::NoRefreshToken && refresh_cookie is None)
            &&& exists|verdict: Result<VerifiedToken, TokenFailure>|
                verdict_fits(verdict, t) && #[trigger] is_auth_step(verdict, opt_view(refresh_cookie), r)
        },
{
    let token = match check_digits(bearer, id_token_cookie, csrf_salt) {
        Ok(t) => t,
        Err(e) => return AuthStep::Refuse(e),
    };
    let verdict = verify_token_text(token.as_str(), verifier);
    let ghost g = verdict;
    let r = next_auth_step(verdict, refresh_cookie);
    assert(verdict_fits(g, token@) && is_auth_step(g, opt_view(refresh_cookie), r));
    r
}

/// Decides the next step of an authentication from the verdict on the ID
/// token: accepted claims are answered; only an expired token is renewed,
/// with the refresh token cookie; any other failure is reported.
pub fn next_auth_step(verdict: Result<VerifiedToken, TokenFailure>, refresh_cookie: Option<&str>) -> (r: AuthStep)
    ensures
        verdict matches Ok(v) ==> r == AuthStep::Accept(v.claims),
        verdict matches Err(TokenFailure::Expired(_)) ==> match refresh_cookie {
            Some(c) => r matches AuthStep::RefreshWith(t) && t@ == c@,
            None => r == AuthStep::Refuse(SessionError::NoRefreshToken),
        },
        verdict matches Err(f) ==> (f is Expired || r == AuthStep::Fail(f)),
        is_auth_step(verdict, opt_view(refresh_cookie), r),
{
    match verdict {
        Ok(v) => AuthStep::Accept(v.claims),
        Err(TokenFailure::Expired(m)) => match recover_from_claims_failure(true, refresh_cookie) {
            ClaimsRecovery::RefreshWith(t) => AuthStep::RefreshWith(t),
            ClaimsRecovery::Refuse(e) => AuthStep::Refuse(e),
            ClaimsRecovery::ReportFailure => AuthStep::Fail(TokenFailure::Expired(m)),
        },
        Err(f) => AuthStep::Fail(f),
    }
}

/// Whether `r` is the outcome of accepting a renewed token set after the
/// verdict `verdict` on its ID token `id_token`: a verified token is
/// accepted with its claims and the new token cookies, whatever nonce it
/// carries; a failure is passed on.
pub open spec fn is_renewal_outcome(
    verdict: Result<VerifiedToken, TokenFailure>,
    id_token: Seq<char>,
    refresh_token: Option<Seq<char>>,
    csrf_salt: Seq<char>,
    r: Result<(UserClaims, Vec<CookieUpdate>), TokenFailure>,
) -> bool {
    match verdict {
        Ok(v) => r matches Ok(p) && p.0 == v.claims && is_token_cookies(p.1@, refresh_token, id_token, csrf_salt),
        Err(f) => r == Err::<(UserClaims, Vec<CookieUpdate>), TokenFailure>(f),
    }
}

/// A renewed token is accepted, or not, whatever nonce it carries, none
/// included: two verified tokens with the same claims have the same
/// outcome, and it is success.
pub proof fn lemma_renewal_ignores_nonce(
    v1: VerifiedToken,
    v2: VerifiedToken,
    id_token: Seq<char>,
    refresh_token: Option<Seq<char>>,
    csrf_salt: Seq<char>,
    r1: Result<(UserClaims, Vec<CookieUpdate>), TokenFailure>,
    r2: Result<(UserClaims, Vec<CookieUpdate>), TokenFailure>,
)
    requires
        v1.claims == v2.claims,
        is_renewal_outcome(Ok(v1), id_token, refresh_token, csrf_salt, r1),
        is_renewal_outcome(Ok(v2), id_token, refresh_token, csrf_salt, r2),
    ensures
        r1 is Ok && r2 is Ok,
        r1->Ok_0.0 == r2->Ok_0.0,
{
}

/// Completes the renewal of a token set from the verdict on its new ID
/// token: a verified token is accepted with its claims, whatever nonce it
/// carries, and the new tokens are stored.
pub fn renewal_outcome(
    verdict: Result<VerifiedToken, TokenFailure>,
    id_token: &str,
    refresh_token: Option<&str>,
    csrf_salt: &str,
) -> (r: Result<(UserClaims, Vec<CookieUpdate>), TokenFailure>)
    ensures
        is_renewal_outcome(verdict, id_token@, opt_view(refresh_token), csrf_salt@, r),
{
    match verdict {
        Ok(v) => Ok((v.claims, token_cookies(refresh_token, id_token, csrf_salt))),
        Err(e) => Err(e),
    }
}

/// Accepts the ID token of a renewed token set: its claims must verify,
/// whatever nonce it carries; answers its claims and the cookies that store
/// the new tokens.
pub fn accept_renewed(
    id_token: &str,
    refresh_token: Option<&str>,
    csrf_salt: &str,
    verifier: &TokenVerifier,
) -> (r: Result<(UserClaims, Vec<CookieUpdate>), TokenFailure>)
    ensures
        (r matches Err(TokenFailure::Malformed(_))) <==> !id_token_parses(id_token@),
        !(r matches Err(TokenFailure::NonceRefused(_))),
        r matches Ok(v) ==> user_view(v.0) == text_user_claims(id_token@),
        r matches Ok(v) ==> is_token_cookies(v.1@, opt_view(refresh_token), id_token@, csrf_salt@),
        exists|verdict: Result<VerifiedToken, TokenFailure>|
            verdict_fits(verdict, id_token@)
                && #[trigger] is_renewal_outcome(verdict, id_token@, opt_view(refresh_token), csrf_salt@, r),
{
    let verdict = verify_token_text(id_token, verifier);
    let ghost g = verdict;
    let r = renewal_outcome(verdict, id_token, refresh_token, csrf_salt);
    assert(verdict_fits(g, id_token@) && is_renewal_outcome(g, id_token@, opt_view(refresh_token), csrf_salt@, r));
    r
}

/// Whether `r` is the outcome of a login callback after the verdict
/// `verdict` on its ID token `id_token`: a verified token whose nonce
/// matches the nonce cookie succeeds with the callback cookies; one whose
/// nonce does not is refused for it; a failure is passed on.
pub open spec fn is_login_outcome(
    verdict: Result<VerifiedToken, TokenFailure>,
    id_token: Seq<char>,
    refresh_token: Option<Seq<char>>,
    nonce_cookie: Option<Seq<char>>,
    nonce_salt: Seq<char>,
    csrf_salt: Seq<char>,
    r: Result<(VerifiedToken, Vec<CookieUpdate>), TokenFailure>,
) -> bool {
    match verdict {
        Err(f) => r == Err::<(VerifiedToken, Vec<CookieUpdate>), TokenFailure>(f),
        Ok(v) => match nonce_verdict(opt_string_view(v.nonce), nonce_cookie, nonce_salt) {
            Err(e) => r == Err::<(VerifiedToken, Vec<CookieUpdate>), TokenFailure>(TokenFailure::NonceRefused(e)),
            Ok(_) => r matches Ok(p) && p.0 == v && is_callback_cookies(p.1@, refresh_token, id_token, csrf_salt),
        },
    }
}

/// A verified token whose nonce the nonce cookie holds the salted digest of
/// logs in, whatever other claims (name, email, subject) it carries; and
/// of two verified tokens with the same nonce, both log in or neither.
pub proof fn lemma_login_depends_on_nonce_only(
    v1: VerifiedToken,
    v2: VerifiedToken,
    id_token: Seq<char>,
    refresh_token: Option<Seq<char>>,
    nonce_cookie: Option<Seq<char>>,
    nonce_salt: Seq<char>,
    csrf_salt: Seq<char>,
    r1: Result<(VerifiedToken, Vec<CookieUpdate>), TokenFailure>,
    r2: Result<(VerifiedToken, Vec<CookieUpdate>), TokenFailure>,
)
    requires
        v1.nonce == v2.nonce,
        is_login_outcome(Ok(v1), id_token, refresh_token, nonce_cookie, nonce_salt, csrf_salt, r1),
        is_login_outcome(Ok(v2), id_token, refresh_token, nonce_cookie, nonce_salt, csrf_salt, r2),
    ensures
        (r1 is Ok) <==> (r2 is Ok),
        (r1 is Ok) <==> nonce_verdict(opt_string_view(v1.nonce), nonce_cookie, nonce_salt) is Ok,
        r1 matches Ok(p) ==> p.0 == v1,
{
}

/// Completes a login callback from the verdict on its ID token: a verified
/// token must carry the nonce whose salted digest the nonce cookie holds;
/// then the state and nonce cookies go and the token cookies come.
pub fn login_outcome(
    verdict: Result<VerifiedToken, TokenFailure>,
    id_token: &str,
    refresh_token: Option<&str>,
    nonce_cookie: Option<&str>,
    nonce_salt: &str,
    csrf_salt: &str,
) -> (r: Result<(VerifiedToken, Vec<CookieUpdate>), TokenFailure>)
    ensures
        verdict matches Err(f) ==> r == Err::<(VerifiedToken, Vec<CookieUpdate>), TokenFailure>(f),
        verdict matches Ok(v) ==> match nonce_verdict(opt_string_view(v.nonce), opt_view(nonce_cookie), nonce_salt@) {
            Err(e) => r == Err::<(VerifiedToken, Vec<CookieUpdate>), TokenFailure>(TokenFailure::NonceRefused(e)),
            Ok(_) => r matches Ok(p) && p.0 == v && is_callback_cookies(p.1@, opt_view(refresh_token), id_token@, csrf_salt@),
        },
        is_login_outcome(verdict, id_token@, opt_view(refresh_token), opt_view(nonce_cookie), nonce_salt@, csrf_salt@, r),
{
    let v = match verdict {
        Ok(v) => v,
        Err(f) => return Err(f),
    };
    let nonce: Option<&str> = match &v.nonce {
        Some(n) => Some(n.as_str()),
        None => None,
    };
    match check_nonce(nonce, nonce_cookie, nonce_salt) {
        Ok(()) => Ok((v, callback_cookies(refresh_token, id_token, csrf_salt))),
        Err(e) => Err(TokenFailure::NonceRefused(e)),
    }
}

/// Finishes a login callback: the ID token must verify and carry the nonce
/// whose salted digest the nonce cookie holds; answers the verified token
/// and the cookie changes (the state and nonce cookies go, the token
/// cookies come).
pub fn finish_login(
    id_token: &str,
    refresh_token: Option<&str>,
    nonce_cookie: Option<&str>,
    nonce_salt: &str,
    csrf_salt: &str,
    verifier: &TokenVerifier,
) -> (r: Result<(VerifiedToken, Vec<CookieUpdate>), TokenFailure>)
    ensures
        (r matches Err(TokenFailure::Malformed(_))) <==> !id_token_parses(id_token@),
        nonce_cookie is None ==> r is Err,
        r matches Ok(p) ==> token_view(p.0) == id_token_claims(id_token@),
        r matches Ok(p) ==> nonce_verdict(id_token_claims(id_token@).3, opt_view(nonce_cookie), nonce_salt@) is Ok,
        r matches Ok(p) ==> is_callback_cookies(p.1@, opt_view(refresh_token), id_token@, csrf_salt@),
        r matches Err(TokenFailure::NonceRefused(e)) ==> id_token_parses(id_token@)
            && nonce_verdict(id_token_claims(id_token@).3, opt_view(nonce_cookie), nonce_salt@) == Err::<(), SessionError>(e),
        exists|verdict: Result<VerifiedToken, TokenFailure>|
            verdict_fits(verdict, id_token@) && #[trigger] is_login_outcome(verdict, id_token@, opt_view(refresh_token),
                opt_view(nonce_cookie), nonce_salt@, csrf_salt@, r),
{
    let verdict = verify_token_text(id_token, verifier);
    let ghost g = verdict;
    let r = login_outcome(verdict, id_token, refresh_token, nonce_cookie, nonce_salt, csrf_salt);
    assert(verdict_fits(g, id_token@) && is_login_outcome(g, id_token@, opt_view(refresh_token),
        opt_view(nonce_cookie), nonce_salt@, csrf_salt@, r));
    r
}

#[verifier::external_type_specification]
#[verifier::external_body]
pub struct ExUrlParseError(openidconnect::url::ParseError);

/// Whether the URL parser of `url` accepts `s` as an absolute URL.
pub uninterp spec fn url_accepts(s: Seq<char>) -> bool;

/// The authorization URL that `openidconnect` builds for the
/// authorization-code flow of the client `client_id` of the provider
/// `issuer`, whose authorization endpoint is `endpoint`, redirecting to
/// `redirect`, asking for `scope`, with the CSRF state `state` and the nonce
/// `nonce`.
pub uninterp spec fn authorization_url(
    issuer: Seq<char>,
    endpoint: Seq<char>,
    client_id: Seq<char>,
    redirect: Seq<char>,
    scope: Seq<char>,
    state: Seq<char>,
    nonce: Seq<char>,
) -> Seq<char>;

/// Calls `CoreClient::new` and `set_redirect_uri` on the given settings
/// (each URL read by `IssuerUrl::new`, `AuthUrl::new` and `RedirectUrl::new`),
/// then `Client::authorize_url` for the authorization-code flow with a fresh
/// random CSRF state (`CsrfToken::new_random`) and nonce
/// (`Nonce::new_random`), `add_scope` and `url`; answers the URL, the state
/// and the nonce. The contract claims that it fails exactly where one of
/// the three URLs is refused, and that the URL is the named function of the
/// settings, the scope, the state and the nonce; the state and nonce are
/// random, and nothing is claimed of them.
#[verifier::external_body]
fn authorize_url(issuer: &str, endpoint: &str, client_id: &str, redirect: &str, scope: &str) -> (r: Result<(String, String, String), openidconnect::url::ParseError>)
    ensures
        r is Ok == (url_accepts(issuer@) && url_accepts(endpoint@) && url_accepts(redirect@)),
        r matches Ok(t) ==> t.0@ == authorization_url(issuer@, endpoint@, client_id@, redirect@, scope@, t.1@, t.2@),
{
    let (issuer, auth) = (IssuerUrl::new(issuer.to_string())?, AuthUrl::new(endpoint.to_string())?);
    let back = RedirectUrl::new(redirect.to_string())?;
    let id = ClientId::new(client_id.to_string());
    let client = openidconnect::core::CoreClient::new(id, None, issuer, auth, None, None, Default::default()).set_redirect_uri(back);
    let flow = AuthenticationFlow::<openidconnect::core::CoreResponseType>::AuthorizationCode;
    let request = client.authorize_url(flow, CsrfToken::new_random, Nonce::new_random);
    let (url, csrf, nonce) = request.add_scope(Scope::new(scope.to_string())).url();
    Ok((url.to_string(), csrf.secret().clone(), nonce.secret().clone()))
}

/// The settings of the OpenID Connect client that a login URL is built
/// from: the provider's issuer and authorization endpoint, the client's
/// identity and the URL that the provider redirects back to.
pub struct LoginSettings {
    pub issuer: String,
    pub authorization_endpoint: String,
    pub client_id: String,
    pub redirect_url: String,
}

/// Starts a login: the URL of the identity provider to send the browser to,
/// for the scope `openid` with a fresh CSRF state and nonce, and the cookies
/// that keep the salted digests of that same state and nonce. Fails exactly
/// where one of the settings' URLs is refused.
pub fn begin_login(
    settings: &LoginSettings,
    csrf_salt: &str,
    nonce_salt: &str,
) -> (r: Result<(String, Vec<CookieUpdate>), openidconnect::url::ParseError>)
    ensures
        r is Ok == (url_accepts(settings.issuer@) && url_accepts(settings.authorization_endpoint@)
            && url_accepts(settings.redirect_url@)),
        r matches Ok(p) ==> exists|csrf: Seq<char>, nonce: Seq<char>| {
            &&& #[trigger] is_login_cookies(p.1@, csrf, nonce, csrf_salt@, nonce_salt@)
            &&& p.0@ == authorization_url(settings.issuer@, settings.authorization_endpoint@, settings.client_id@,
                settings.redirect_url@, "openid"@, csrf, nonce)
        },
{
    let (url, csrf, nonce) = match authorize_url(
        settings.issuer.as_str(),
        settings.authorization_endpoint.as_str(),
        settings.client_id.as_str(),
        settings.redirect_url.as_str(),
        "openid",
    ) {
        Ok(t) => t,
        Err(e) => return Err(e),
    };
    let cookies = login_cookies(csrf.as_str(), nonce.as_str(), csrf_salt, nonce_salt);
    let p = (url, cookies);
    assert(is_login_cookies(p.1@, csrf@, nonce@, csrf_salt@, nonce_salt@));
    assert(p.0@ == authorization_url(settings.issuer@, settings.authorization_endpoint@, settings.client_id@,
        settings.redirect_url@, "openid"@, csrf@, nonce@));
    let r: Result<(String, Vec<CookieUpdate>), openidconnect::url::ParseError> = Ok(p);
    assert(is_login_cookies(r->Ok_0.1@, csrf@, nonce@, csrf_salt@, nonce_salt@));
    r
}

} // verus!
