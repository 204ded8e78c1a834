//! Signing up and signing in: password hashes and token pairs, made by
//! cargo-smith's `AuthService` (bcrypt and JSON web tokens).
use vstd::prelude::*;

use cargo_smith::AuthService;

use crate::outside::is_hyphenated_uuid;
use crate::users::{guest_name, AuthResponse, RegisterBody, Tokens, UserKind, Users, START_ELO};

verus! {

/// Whether `AuthService::verify_password` accepts `password` against the
/// bcrypt hash `hash` (a hash it cannot read counts as a refusal).
pub uninterp spec fn password_matches(password: Seq<char>, hash: Seq<char>) -> bool;

/// Calls `AuthService::hash_password(password)`: bcrypt with a random salt.
/// Trusted: a hash it gives back is one `verify_password` accepts the same
/// password against (bcrypt re-hashes the password with the salt the hash
/// carries). Which hash comes is not stated: the salt is random. `None`
/// when bcrypt fails.
#[verifier::external_body]
fn hash_password(password: &str) -> (r: Option<String>)
    ensures
        r matches Some(h) ==> password_matches(password@, h@),
{
    AuthService::hash_password(password).ok()
}

/// Calls `AuthService::verify_password(password, hash)`, an error counting
/// as a refusal. Trusted: the answer depends on the two texts alone (named
/// `password_matches`).
#[verifier::external_body]
fn verify_password(password: &str, hash: &str) -> (r: bool)
    ensures
        r == password_matches(password@, hash@),
{
    AuthService::verify_password(password, hash).unwrap_or(false)
}

/// What `jsonwebtoken::decode` reads from `token` as cargo-smith claims,
/// with HS256, the signature checked against `secret` and the expiry not
/// checked: the subject and the `username` text of the claims' data.
/// `None` when the token does not decode.
pub uninterp spec fn token_claims(token: Seq<char>, secret: Seq<char>) -> Option<(Seq<char>, Option<Seq<char>>)>;

/// The claims read from a token, as texts.
pub open spec fn claims_view(r: Option<(String, Option<String>)>) -> Option<(Seq<char>, Option<Seq<char>>)> {
    match r {
        None => None,
        Some((sub, Some(name))) => Some((sub@, Some(name@))),
        Some((sub, None)) => Some((sub@, None)),
    }
}

/// Decodes `token` as cargo-smith's `Claims<serde_json::Value>` with
/// `jsonwebtoken::decode`, HS256, the key `secret`, the signature checked
/// and `validate_exp` off, and takes the subject and the `username` text of
/// the data. Trusted: the result depends on the two texts alone (named
/// `token_claims`); with the expiry unchecked, nothing in it reads the clock.
#[verifier::external_body]
fn read_token_claims(token: &str, secret: &str) -> (r: Option<(String, Option<String>)>)
    ensures
        claims_view(r) == token_claims(token@, secret@),
{
    let mut validation = jsonwebtoken::Validation::new(jsonwebtoken::Algorithm::HS256);
    validation.validate_exp = false;
    jsonwebtoken::decode::<cargo_smith::Claims<serde_json::Value>>(
        token,
        &jsonwebtoken::DecodingKey::from_secret(secret.as_bytes()),
        &validation,
    )
        .ok()
        .map(|d| (d.claims.sub, d.claims.data.get("username").and_then(|v| v.as_str()).map(|s| s.to_string())))
}

/// Calls `AuthService::new(secret, secret).token_pair(id, username)`: an
/// access token and a refresh token for a registered account, signed with
/// `secret`. Trusted: each token decodes under `secret` to the subject `id`
/// and the user name `username` (`generate_token` puts `id` in `sub` and
/// the name in the data, and signs with HS256 and the secret). The rest of
/// the tokens is not stated: they carry the current time.
#[verifier::external_body]
fn token_pair(secret: &str, id: &str, username: &str) -> (r: (String, String))
    ensures
        token_claims(r.0@, secret@) == Some((id@, Some(username@))),
        token_claims(r.1@, secret@) == Some((id@, Some(username@))),
{
    AuthService::new(secret.to_string(), secret.to_string()).token_pair(id, username)
}

/// Calls `AuthService::new(secret, secret).guest_token_pair(id, username)`:
/// the token pair of a guest. Trusted: each token decodes under `secret` to
/// the subject `id` and the user name `username`, as for `token_pair`. The
/// rest of the tokens is not stated: they carry the current time.
#[verifier::external_body]
fn guest_token_pair(secret: &str, id: &str, username: &str) -> (r: (String, String))
    ensures
        token_claims(r.0@, secret@) == Some((id@, Some(username@))),
        token_claims(r.1@, secret@) == Some((id@, Some(username@))),
{
    AuthService::new(secret.to_string(), secret.to_string()).guest_token_pair(id, username)
}

/// Calls `AuthService::new(secret, secret).verify_token::<serde_json::Value>(token)`:
/// whether `token` is signed with `secret` and not expired. Trusted: a
/// token it accepts decodes under `secret` (`token_claims`: the same decode
/// with the expiry left unchecked). Whether an expired token is refused
/// depends on the current time and is not stated.
#[verifier::external_body]
fn verify_token(secret: &str, token: &str) -> (r: bool)
    ensures
        r ==> token_claims(token@, secret@) is Some,
{
    AuthService::new(secret.to_string(), secret.to_string()).verify_token::<serde_json::Value>(token)
}

/// The account that `body` asks to open: a fresh id, the password kept only
/// as a bcrypt hash that the same password is accepted against. `None` when
/// hashing fails.
pub fn registration(body: &RegisterBody) -> (r: Option<Users>)
    ensures
        r matches Some(u) ==> {
            &&& is_hyphenated_uuid(u.id@)
            &&& u.username == body.username
            &&& u.email == body.email
            &&& password_matches(body.password@, u.password_hash@)
            &&& u.kind == UserKind::Registered
            &&& u.refresh_token is None
            &&& u.elo == START_ELO
        },
{
    match hash_password(body.password.as_str()) {
        Some(hash) => Some(Users::new(body.username.clone(), body.email.clone(), hash)),
        None => None,
    }
}

/// Whether `password` opens the account of `user`.
pub fn password_ok(user: &Users, password: &str) -> (r: bool)
    ensures
        r == password_matches(password@, user.password_hash@),
{
    verify_password(password, user.password_hash.as_str())
}

/// Signs `user` in with a fresh token pair signed with `secret`; the new
/// refresh token replaces the one the account kept.
pub fn sign_in(secret: &str, user: &mut Users) -> (r: AuthResponse)
    ensures
        token_claims(r.tokens.access_token@, secret@) == Some((old(user).id@, Some(old(user).username@))),
        token_claims(r.tokens.refresh_token@, secret@) == Some((old(user).id@, Some(old(user).username@))),
        final(user).refresh_token == Some(r.tokens.refresh_token),
        r.username == old(user).username,
        final(user).id == old(user).id,
        final(user).username == old(user).username,
        final(user).email == old(user).email,
        final(user).password_hash == old(user).password_hash,
        final(user).kind == old(user).kind,
        final(user).elo == old(user).elo,
{
    let (access, refresh) = token_pair(secret, user.id.as_str(), user.username.as_str());
    user.refresh_token = Some(refresh.clone());
    AuthResponse { tokens: Tokens { access_token: access, refresh_token: refresh }, username: user.username.clone() }
}

/// Whether `token` is a refresh token signed with `secret` that has not
/// expired (see `verify_token`): a token it accepts decodes under `secret`.
pub fn refresh_token_valid(secret: &str, token: &str) -> (r: bool)
    ensures
        r ==> token_claims(token@, secret@) is Some,
{
    verify_token(secret, token)
}

/// The subject and user name that `token` carries, read with the signature
/// checked against `secret` and the expiry left unchecked.
pub fn read_token(secret: &str, token: &str) -> (r: Option<(String, Option<String>)>)
    ensures
        claims_view(r) == token_claims(token@, secret@),
{
    read_token_claims(token, secret)
}

/// A new guest account and its tokens, signed with `secret`; guests are
/// not stored.
pub fn guest_sign_in(secret: &str) -> (r: (Users, AuthResponse))
    ensures
        r.1.username == r.0.username,
        token_claims(r.1.tokens.access_token@, secret@) == Some((r.0.id@, Some(r.0.username@))),
        token_claims(r.1.tokens.refresh_token@, secret@) == Some((r.0.id@, Some(r.0.username@))),
        exists|n: u16| r.0.username@ == guest_name(n),
        r.0.kind == UserKind::Guest,
        r.0.refresh_token is None,
        r.0.elo == START_ELO,
{
    let user = Users::new_guest();
    let (access, refresh) = guest_token_pair(secret, user.id.as_str(), user.username.as_str());
    let answer = AuthResponse {
        tokens: Tokens { access_token: access, refresh_token: refresh },
        username: user.username.clone(),
    };
    (user, answer)
}

} // verus!
