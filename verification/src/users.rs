//! Accounts: registered users and throw-away guests, and the bodies of the
//! sign-in requests and answers.
use vstd::prelude::*;
use vstd::string::*;

use crate::outside::{is_hyphenated_uuid, new_uuid_text, random_u16};

verus! {

/// Rating every new account starts with.
pub const START_ELO: u64 = 1000;

#[derive(Debug, Clone, Copy, PartialEq, Eq, Structural)]
pub enum UserKind {
    Registered,
    Guest,
}

#[derive(Debug, Clone)]
pub struct Tokens {
    pub access_token: String,
    pub refresh_token: String,
}

#[derive(Debug, Clone)]
pub struct Users {
    pub id: String,
    pub username: String,
    pub email: String,
    pub password_hash: String,
    pub kind: UserKind,
    pub refresh_token: Option<String>,
    pub elo: u64,
}

/// The decimal digits in order.
pub open spec fn decimal_digits() -> Seq<char> {
    "0123456789"@
}

/// `n` in decimal with at least four digits, zeros in front (`{:04}`).
pub open spec fn four_digit_text(n: u16) -> Seq<char> {
    let d = |k: int| decimal_digits()[k];
    let n = n as int;
    if n >= 10000 {
        seq![d(n / 10000), d(n / 1000 % 10), d(n / 100 % 10), d(n / 10 % 10), d(n % 10)]
    } else {
        seq![d(n / 1000), d(n / 100 % 10), d(n / 10 % 10), d(n % 10)]
    }
}

/// The name a guest gets from its number.
pub open spec fn guest_name(n: u16) -> Seq<char> {
    "Guest#"@ + four_digit_text(n)
}

pub(crate) fn append_digit(text: String, d: u16) -> (r: String)
    requires
        d < 10,
    ensures
        r@ == text@.push(decimal_digits()[d as int]),
{
    let digits = "0123456789";
    proof {
        reveal_strlit("0123456789");
    }
    let k = d as usize;
    let piece = digits.substring_ascii(k, k + 1);
    let mut text = text;
    let ghost before = text@;
    text.append(piece);
    assert(text@ =~= before.push(decimal_digits()[d as int]));
    text
}

/// The text `format!("Guest#{:04}", n)` gives.
pub fn guest_name_text(n: u16) -> (r: String)
    ensures
        r@ == guest_name(n),
{
    let mut text = String::from_str("Guest#");
    if n >= 10000 {
        text = append_digit(text, n / 10000);
    }
    text = append_digit(text, n / 1000 % 10);
    text = append_digit(text, n / 100 % 10);
    text = append_digit(text, n / 10 % 10);
    text = append_digit(text, n % 10);
    proof {
        if n < 10000 {
            assert(n / 1000 % 10 == n / 1000);
        }
    }
    assert(text@ =~= guest_name(n));
    text
}

impl Users {
    /// A registered account with a fresh UUID as its id.
    pub fn new(username: String, email: String, password_hash: String) -> (r: Self)
        ensures
            is_hyphenated_uuid(r.id@),
            r.username == username,
            r.email == email,
            r.password_hash == password_hash,
            r.kind == UserKind::Registered,
            r.refresh_token is None,
            r.elo == START_ELO,
    {
        Users {
            id: new_uuid_text(),
            username,
            email,
            password_hash,
            kind: UserKind::Registered,
            refresh_token: None,
            elo: START_ELO,
        }
    }

    /// A guest account: id `guest_<uuid>`, name `Guest#<number>` from a
    /// random number, email `<uuid>@guest.com`, and no password.
    pub fn new_guest() -> (r: Self)
        ensures
            exists|u: Seq<char>| is_hyphenated_uuid(u) && r.id@ == "guest_"@ + u,
            exists|n: u16| r.username@ == guest_name(n),
            exists|u: Seq<char>| is_hyphenated_uuid(u) && r.email@ == u + "@guest.com"@,
            r.password_hash@ == Seq::<char>::empty(),
            r.kind == UserKind::Guest,
            r.refresh_token is None,
            r.elo == START_ELO,
    {
        let n = random_u16();
        let id_part = new_uuid_text();
        let mut id = String::from_str("guest_");
        id.append(id_part.as_str());
        let mut email = new_uuid_text();
        let ghost email_part = email@;
        email.append("@guest.com");
        let username = guest_name_text(n);
        Users {
            id,
            username,
            email,
            password_hash: String::new(),
            kind: UserKind::Guest,
            refresh_token: None,
            elo: START_ELO,
        }
    }
}

pub struct RegisterBody {
    pub username: String,
    pub email: String,
    pub password: String,
}

pub struct LoginBody {
    pub username: String,
    pub password: String,
}

pub struct RefreshBody {
    pub refresh_token: String,
}

pub struct AuthResponse {
    pub tokens: Tokens,
    pub username: String,
}

} // verus!
