use topo::ids::{GameId, Seconds};
use topo::invite::{CreateGameRequest, GameStatus, InviteCode, InviteCodeStore, CODE_LENGTH};
use topo::users::{guest_name_text, UserKind, Users, START_ELO};

const ALPHABET: &str = "abcdefghjkmnpqrstuvwxyz23456789";

fn game(name: &str) -> GameId {
    GameId(name.to_string())
}

fn is_uuid_text(s: &str) -> bool {
    s.len() == 36
        && s.chars().enumerate().all(|(i, c)| {
            if i == 8 || i == 13 || i == 18 || i == 23 {
                c == '-'
            } else {
                c.is_ascii_hexdigit() && !c.is_ascii_uppercase()
            }
        })
}

#[test]
fn generated_code_has_six_alphabet_characters() {
    for _ in 0..50 {
        let code = InviteCode::generate();
        assert_eq!(code.as_str().chars().count(), CODE_LENGTH);
        assert!(code.as_str().chars().all(|c| ALPHABET.contains(c)));
    }
}

#[test]
fn created_code_resolves_to_its_game() {
    let mut store = InviteCodeStore::new();
    let code = store.create_code(game("g1"));
    assert_eq!(store.resolve(&code), Some(&game("g1")));
}

#[test]
fn same_game_gets_same_code() {
    let mut store = InviteCodeStore::new();
    let first = store.create_code(game("g1"));
    let second = store.create_code(game("g1"));
    assert_eq!(first, second);
    assert_eq!(first.as_str().chars().count(), CODE_LENGTH);
    assert_eq!(store.len(), 1);
}

#[test]
fn different_games_get_different_codes() {
    let mut store = InviteCodeStore::new();
    let a = store.create_code(game("g1"));
    let b = store.create_code(game("g2"));
    assert_ne!(a, b);
    assert_eq!(store.len(), 2);
    assert_eq!(store.resolve(&a), Some(&game("g1")));
    assert_eq!(store.resolve(&b), Some(&game("g2")));
}

#[test]
fn unknown_code_resolves_to_nothing() {
    let store = InviteCodeStore::new();
    assert_eq!(store.resolve(&InviteCode("zzzzzz".to_string())), None);
}

#[test]
fn removed_game_code_no_longer_resolves() {
    let mut store = InviteCodeStore::new();
    let a = store.create_code(game("g1"));
    let b = store.create_code(game("g2"));
    store.remove_game(&game("g1"));
    assert_eq!(store.resolve(&a), None);
    assert_eq!(store.resolve(&b), Some(&game("g2")));
    store.remove_game(&game("never"));
    assert_eq!(store.resolve(&b), Some(&game("g2")));
}

#[test]
fn turn_length_must_lie_between_thirty_and_three_hundred() {
    assert_eq!(CreateGameRequest { duration_seconds: 29 }.turn_length(), None);
    assert_eq!(CreateGameRequest { duration_seconds: 30 }.turn_length(), Some(Seconds(30)));
    assert_eq!(CreateGameRequest { duration_seconds: 300 }.turn_length(), Some(Seconds(300)));
    assert_eq!(CreateGameRequest { duration_seconds: 301 }.turn_length(), None);
}

#[test]
fn open_game_hands_out_the_code_of_the_game() {
    let mut store = InviteCodeStore::new();
    let refused = store.open_game(&CreateGameRequest { duration_seconds: 5 }, game("g1"));
    assert!(refused.is_none());
    assert_eq!(store.status(&InviteCode("abcdef".to_string()), &vec![]), GameStatus::Unknown);
    let (turn, answer) = store.open_game(&CreateGameRequest { duration_seconds: 60 }, game("g1")).unwrap();
    assert_eq!(turn, Seconds(60));
    assert_eq!(answer.game_id, game("g1"));
    let code = InviteCode(answer.invite_code.clone());
    assert_eq!(store.resolve(&code), Some(&game("g1")));
}

#[test]
fn status_tells_open_ended_and_unknown_apart() {
    let mut store = InviteCodeStore::new();
    let code = store.create_code(game("g1"));
    assert_eq!(store.status(&code, &vec![game("g1"), game("g2")]), GameStatus::Open);
    assert_eq!(store.status(&code, &vec![game("g2")]), GameStatus::Ended);
    assert_eq!(store.status(&InviteCode("nope".to_string()), &vec![game("g1")]), GameStatus::Unknown);
}

#[test]
fn new_game_id_is_a_uuid() {
    let a = GameId::new();
    let b = GameId::new();
    assert!(is_uuid_text(&a.0));
    assert_ne!(a, b);
}

#[test]
fn new_user_is_registered_with_start_rating() {
    let user = Users::new("alice".to_string(), "a@x.org".to_string(), "hash".to_string());
    assert!(is_uuid_text(&user.id));
    assert_eq!(user.username, "alice");
    assert_eq!(user.email, "a@x.org");
    assert_eq!(user.password_hash, "hash");
    assert_eq!(user.kind, UserKind::Registered);
    assert_eq!(user.refresh_token, None);
    assert_eq!(user.elo, 1000);
    assert_eq!(START_ELO, 1000);
}

#[test]
fn guest_user_has_generated_names() {
    let user = Users::new_guest();
    assert!(user.id.starts_with("guest_"));
    assert!(is_uuid_text(&user.id["guest_".len()..]));
    assert!(user.email.ends_with("@guest.com"));
    assert!(is_uuid_text(&user.email[..36]));
    assert!(user.username.starts_with("Guest#"));
    let digits = &user.username["Guest#".len()..];
    assert!(digits.len() >= 4 && digits.chars().all(|c| c.is_ascii_digit()));
    assert_eq!(user.password_hash, "");
    assert_eq!(user.kind, UserKind::Guest);
    assert_eq!(user.elo, 1000);
}

#[test]
fn guest_number_is_zero_padded_to_four_digits() {
    assert_eq!(guest_name_text(0), "Guest#0000");
    assert_eq!(guest_name_text(7), "Guest#0007");
    assert_eq!(guest_name_text(1234), "Guest#1234");
    assert_eq!(guest_name_text(65535), "Guest#65535");
    for n in [0u16, 9, 10, 99, 100, 999, 1000, 9999, 10000, 40000] {
        assert_eq!(guest_name_text(n), format!("Guest#{:04}", n));
    }
}
