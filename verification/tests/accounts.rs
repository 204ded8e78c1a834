use topo::auth::{guest_sign_in, password_ok, read_token, refresh_token_valid, registration, sign_in};
use topo::users::{RegisterBody, UserKind};

fn body() -> RegisterBody {
    RegisterBody { username: "alice".to_string(), email: "alice@example.org".to_string(), password: "hunter2".to_string() }
}

#[test]
fn registered_account_accepts_its_password_only() {
    let user = registration(&body()).unwrap();
    assert_eq!(user.username, "alice");
    assert_eq!(user.email, "alice@example.org");
    assert_ne!(user.password_hash, "hunter2");
    assert_eq!(user.kind, UserKind::Registered);
    assert!(password_ok(&user, "hunter2"));
    assert!(!password_ok(&user, "hunter3"));
}

#[test]
fn signing_in_keeps_the_new_refresh_token() {
    let mut user = registration(&body()).unwrap();
    assert_eq!(user.refresh_token, None);
    let answer = sign_in("secret", &mut user);
    assert_eq!(answer.username, "alice");
    assert_eq!(user.refresh_token.as_deref(), Some(answer.tokens.refresh_token.as_str()));
    assert!(refresh_token_valid("secret", &answer.tokens.refresh_token));
    assert!(!refresh_token_valid("other secret", &answer.tokens.refresh_token));
    assert!(!refresh_token_valid("secret", "not a token"));
}

#[test]
fn guests_get_a_name_and_tokens() {
    let (user, answer) = guest_sign_in("secret");
    assert_eq!(answer.username, user.username);
    assert!(user.username.starts_with("Guest#"));
    assert_eq!(user.kind, UserKind::Guest);
    assert!(refresh_token_valid("secret", &answer.tokens.access_token));
}

#[test]
fn tokens_carry_the_account_id_and_name() {
    let mut user = registration(&body()).unwrap();
    let answer = sign_in("secret", &mut user);
    let expected = Some((user.id.clone(), Some("alice".to_string())));
    assert_eq!(read_token("secret", &answer.tokens.access_token), expected);
    assert_eq!(read_token("secret", &answer.tokens.refresh_token), expected);
    assert_eq!(read_token("other secret", &answer.tokens.access_token), None);
    let (guest, answer) = guest_sign_in("secret");
    assert_eq!(read_token("secret", &answer.tokens.refresh_token), Some((guest.id.clone(), Some(guest.username.clone()))));
}
