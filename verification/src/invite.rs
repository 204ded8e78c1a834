//! Short invite codes that players share to find a game, and the store that
//! ties each code to one game and each game to at most one code.
use vstd::prelude::*;
use vstd::string::*;

use crate::ids::{GameId, Seconds};
use crate::outside::random_below;

verus! {

/// Number of characters of a freshly drawn code.
pub const CODE_LENGTH: usize = 6;

/// How many fresh codes `create_code` draws at random before it takes the
/// first free code in order.
pub const CODE_ATTEMPTS: usize = 64;

/// How many different codes of `CODE_LENGTH` characters there are (31^6).
pub const CODE_SPACE: u64 = 887_503_681;

/// The characters codes are made of: lower-case letters and digits, without
/// the easily confused 0, o, 1, l and i.
pub open spec fn alphabet() -> Seq<char> {
    seq![
        'a', 'b', 'c', 'd', 'e', 'f', 'g', 'h', 'j', 'k', 'm', 'n', 'p', 'q', 'r', 's', 't', 'u', 'v', 'w',
        'x', 'y', 'z', '2', '3', '4', '5', '6', '7', '8', '9',
    ]
}

fn alphabet_text() -> (r: &'static str)
    ensures
        r@ == alphabet(),
        r@.len() == 31,
        r.is_ascii(),
{
    let r = "abcdefghjkmnpqrstuvwxyz23456789";
    proof {
        reveal_strlit("abcdefghjkmnpqrstuvwxyz23456789");
        assert(r@ =~= alphabet());
    }
    r
}

/// Text made only of alphabet characters.
pub open spec fn is_code_text(s: Seq<char>) -> bool {
    forall|i: int| 0 <= i < s.len() ==> alphabet().contains(#[trigger] s[i])
}

/// 31 to the power `n`: how many codes of `n` characters there are.
pub open spec fn code_count(n: nat) -> nat
    decreases n,
{
    if n == 0 {
        1
    } else {
        31 * code_count((n - 1) as nat)
    }
}

/// The code numbered `k` among those of `n` characters: `k` written in
/// base 31 with the alphabet as digits, the last digit last.
pub open spec fn numbered_code(k: nat, n: nat) -> Seq<char>
    decreases n,
{
    if n == 0 {
        Seq::empty()
    } else {
        numbered_code(k / 31, (n - 1) as nat).push(alphabet()[(k % 31) as int])
    }
}

/// The position of a character in the alphabet.
spec fn position(c: char) -> int {
    if 'a' <= c && c <= 'h' {
        c as int - 'a' as int
    } else if 'j' <= c && c <= 'k' {
        c as int - 'j' as int + 8
    } else if 'm' <= c && c <= 'n' {
        c as int - 'm' as int + 10
    } else if 'p' <= c && c <= 'z' {
        c as int - 'p' as int + 12
    } else {
        c as int - '2' as int + 23
    }
}

proof fn lemma_alphabet_distinct()
    ensures
        alphabet().len() == 31,
        forall|i: int| 0 <= i < 31 ==> position(#[trigger] alphabet()[i]) == i,
        forall|i: int, j: int| 0 <= i < 31 && 0 <= j < 31 && i != j ==> alphabet()[i] != alphabet()[j],
{
    assert forall|i: int| 0 <= i < 31 implies position(#[trigger] alphabet()[i]) == i by {
    }
}

proof fn lemma_numbered_code_text(k: nat, n: nat)
    ensures
        numbered_code(k, n).len() == n,
        is_code_text(numbered_code(k, n)),
    decreases n,
{
    if n > 0 {
        lemma_numbered_code_text(k / 31, (n - 1) as nat);
        let prev = numbered_code(k / 31, (n - 1) as nat);
        let c = alphabet()[(k % 31) as int];
        assert(alphabet().contains(c));
        assert forall|i: int| 0 <= i < numbered_code(k, n).len() implies alphabet().contains(
            #[trigger] numbered_code(k, n)[i],
        ) by {
            if i < prev.len() {
                assert(numbered_code(k, n)[i] == prev[i]);
            }
        }
    }
}

proof fn lemma_numbered_code_injective(a: nat, b: nat, n: nat)
    requires
        a < code_count(n),
        b < code_count(n),
        numbered_code(a, n) == numbered_code(b, n),
    ensures
        a == b,
    decreases n,
{
    if n > 0 {
        lemma_alphabet_distinct();
        let sa = numbered_code(a, n);
        let sb = numbered_code(b, n);
        assert(sa.last() == alphabet()[(a % 31) as int]);
        assert(sb.last() == alphabet()[(b % 31) as int]);
        assert(a % 31 == b % 31);
        assert(sa.drop_last() =~= numbered_code(a / 31, (n - 1) as nat));
        assert(sb.drop_last() =~= numbered_code(b / 31, (n - 1) as nat));
        lemma_numbered_code_injective(a / 31, b / 31, (n - 1) as nat);
    }
}

/// A short, shareable code like "xk7m2p".
#[derive(Debug, PartialEq, Eq, Hash)]
pub struct InviteCode(pub String);

impl Clone for InviteCode {
    fn clone(&self) -> (r: Self)
        ensures
            r == *self,
    {
        InviteCode(self.0.clone())
    }
}

impl InviteCode {
    /// A fresh code of `CODE_LENGTH` alphabet characters, each drawn at random.
    pub fn generate() -> (r: Self)
        ensures
            r.0@.len() == CODE_LENGTH,
            is_code_text(r.0@),
    {
        let letters = alphabet_text();
        let n = letters.unicode_len();
        let mut code = String::new();
        let mut i: usize = 0;
        while i < CODE_LENGTH
            invariant
                i <= CODE_LENGTH,
                code@.len() == i,
                is_code_text(code@),
                letters@ == alphabet(),
                letters.is_ascii(),
                alphabet().len() == 31,
                n == 31,
            decreases CODE_LENGTH - i,
        {
            let k = random_below(n);
            let piece = letters.substring_ascii(k, k + 1);
            let ghost before = code@;
            code.append(piece);
            proof {
                assert(code@ =~= before.push(alphabet()[k as int]));
                assert(alphabet().contains(alphabet()[k as int]));
                assert forall|j: int| 0 <= j < code@.len() implies alphabet().contains(
                    #[trigger] code@[j],
                ) by {
                    if j < before.len() {
                        assert(code@[j] == before[j]);
                    }
                }
            }
            i = i + 1;
        }
        InviteCode(code)
    }

    pub fn as_str(&self) -> (r: &str)
        ensures
            r@ == self.0@,
    {
        self.0.as_str()
    }
}

/// Some stored entry pairs `code` with a game.
pub open spec fn has_code(entries: Seq<(Seq<char>, Seq<char>)>, code: Seq<char>) -> bool {
    exists|i: int| 0 <= i < entries.len() && (#[trigger] entries[i]).0 == code
}

/// Some stored entry pairs a code with `game`.
pub open spec fn has_game(entries: Seq<(Seq<char>, Seq<char>)>, game: Seq<char>) -> bool {
    exists|i: int| 0 <= i < entries.len() && (#[trigger] entries[i]).1 == game
}

/// `code` leads to `game`.
pub open spec fn resolves_to(
    entries: Seq<(Seq<char>, Seq<char>)>,
    code: Seq<char>,
    game: Seq<char>,
) -> bool {
    entries.contains((code, game))
}

/// No code and no game occurs twice.
pub open spec fn one_to_one(entries: Seq<(Seq<char>, Seq<char>)>) -> bool {
    forall|i: int, j: int|
        0 <= i < entries.len() && 0 <= j < entries.len() && i != j ==> (#[trigger] entries[i]).0
            != (#[trigger] entries[j]).0 && entries[i].1 != entries[j].1
}

/// What `create_code` does: a game that has a code keeps it and the store is
/// unchanged; otherwise a code that no entry uses is paired with the game.
pub open spec fn created(
    before: Seq<(Seq<char>, Seq<char>)>,
    game: Seq<char>,
    code: Seq<char>,
    after: Seq<(Seq<char>, Seq<char>)>,
) -> bool {
    if has_game(before, game) {
        after == before && resolves_to(before, code, game)
    } else {
        !has_code(before, code) && after == before.push((code, game))
    }
}

/// What `remove_game` does: the entries of other games stay, the game's own
/// entry goes.
pub open spec fn removed(
    before: Seq<(Seq<char>, Seq<char>)>,
    game: Seq<char>,
    after: Seq<(Seq<char>, Seq<char>)>,
) -> bool {
    forall|e: (Seq<char>, Seq<char>)| after.contains(e) <==> before.contains(e) && e.1 != game
}

proof fn lemma_remove_entry(before: Seq<(Seq<char>, Seq<char>)>, i: int, game: Seq<char>)
    requires
        one_to_one(before),
        0 <= i < before.len(),
        before[i].1 == game,
    ensures
        removed(before, game, before.remove(i)),
        one_to_one(before.remove(i)),
{
    let after = before.remove(i);
    assert forall|e: (Seq<char>, Seq<char>)| after.contains(e) <==> before.contains(e) && e.1
        != game by {
        if after.contains(e) {
            let j = choose|j: int| 0 <= j < after.len() && after[j] == e;
            if j < i {
                assert(before[j] == e);
            } else {
                assert(before[j + 1] == e);
            }
        }
        if before.contains(e) && e.1 != game {
            let j = choose|j: int| 0 <= j < before.len() && before[j] == e;
            assert(j != i);
            if j < i {
                assert(after[j] == e);
            } else {
                assert(after[j - 1] == e);
            }
        }
    }
    assert forall|a: int, b: int|
        0 <= a < after.len() && 0 <= b < after.len() && a != b implies (#[trigger] after[a]).0
        != (#[trigger] after[b]).0 && after[a].1 != after[b].1 by {
        let a2 = if a < i { a } else { a + 1 };
        let b2 = if b < i { b } else { b + 1 };
        assert(after[a] == before[a2]);
        assert(after[b] == before[b2]);
    }
}

/// Appends the code numbered `k` among those of `n` characters to `text`.
fn append_numbered(text: String, k: u64, n: usize) -> (r: String)
    ensures
        r@ == text@ + numbered_code(k as nat, n as nat),
    decreases n,
{
    if n == 0 {
        assert(text@ + numbered_code(k as nat, 0) =~= text@);
        return text;
    }
    let text = append_numbered(text, k / 31, n - 1);
    let letters = alphabet_text();
    let d = (k % 31) as usize;
    let piece = letters.substring_ascii(d, d + 1);
    let ghost before = text@;
    let mut text = text;
    text.append(piece);
    proof {
        assert(piece@ =~= seq![alphabet()[d as int]]);
        assert(text@ =~= before + piece@);
        assert(numbered_code(k as nat, n as nat) == numbered_code((k / 31) as nat, (n - 1) as nat).push(
            alphabet()[(k % 31) as int],
        ));
    }
    text
}

/// `cands` holds no text twice and every one of them is the code of some
/// entry: then there are at least as many entries.
proof fn lemma_pigeonhole(entries: Seq<(Seq<char>, Seq<char>)>, cands: Seq<Seq<char>>)
    requires
        cands.no_duplicates(),
        forall|j: int| 0 <= j < cands.len() ==> has_code(entries, #[trigger] cands[j]),
    ensures
        cands.len() <= entries.len(),
{
    broadcast use vstd::seq_lib::group_seq_properties;
    let codes = entries.map_values(|e: (Seq<char>, Seq<char>)| e.0);
    cands.unique_seq_to_set();
    codes.lemma_cardinality_of_set();
    assert forall|c: Seq<char>| cands.to_set().contains(c) implies codes.to_set().contains(c) by {
        let j = choose|j: int| 0 <= j < cands.len() && cands[j] == c;
        assert(has_code(entries, cands[j]));
        let i = choose|i: int| 0 <= i < entries.len() && (#[trigger] entries[i]).0 == c;
        assert(codes[i] == c);
    }
    vstd::set_lib::lemma_len_subset(cands.to_set(), codes.to_set());
}

/// The codes handed out for open games, each tied to exactly one game.
pub struct InviteCodeStore {
    codes: Vec<InviteCode>,
    games: Vec<GameId>,
}

impl View for InviteCodeStore {
    type V = Seq<(Seq<char>, Seq<char>)>;

    closed spec fn view(&self) -> Seq<(Seq<char>, Seq<char>)> {
        Seq::new(self.codes@.len(), |i: int| (self.codes@[i].0@, self.games@[i].0@))
    }
}

impl InviteCodeStore {
    pub closed spec fn wf(&self) -> bool {
        &&& self.codes@.len() == self.games@.len()
        &&& one_to_one(self@)
        &&& forall|i: int| 0 <= i < self@.len() ==> is_code_text((#[trigger] self@[i]).0)
        &&& forall|i: int| 0 <= i < self@.len() ==> (#[trigger] self@[i]).0.len() == CODE_LENGTH
    }

    /// What a well-formed store keeps: no code and no game occurs twice, and
    /// every code is `CODE_LENGTH` alphabet characters.
    pub proof fn lemma_wf(&self)
        requires
            self.wf(),
        ensures
            one_to_one(self@),
            forall|i: int| 0 <= i < self@.len() ==> is_code_text((#[trigger] self@[i]).0),
            forall|i: int| 0 <= i < self@.len() ==> (#[trigger] self@[i]).0.len() == CODE_LENGTH,
    {
    }

    pub fn new() -> (r: Self)
        ensures
            r.wf(),
            r@ == Seq::<(Seq<char>, Seq<char>)>::empty(),
    {
        let r = InviteCodeStore { codes: Vec::new(), games: Vec::new() };
        assert(r@ =~= Seq::<(Seq<char>, Seq<char>)>::empty());
        r
    }

    /// How many games hold a code.
    pub fn len(&self) -> (r: usize)
        requires
            self.wf(),
        ensures
            r == self@.len(),
    {
        self.codes.len()
    }

    /// Position of the entry whose code is `code`, if any.
    fn find_code(&self, code: &String) -> (r: Option<usize>)
        requires
            self.wf(),
        ensures
            match r {
                Some(i) => i < self@.len() && self@[i as int].0 == code@,
                None => !has_code(self@, code@),
            },
    {
        let mut i: usize = 0;
        while i < self.codes.len()
            invariant
                self.wf(),
                i <= self.codes.len(),
                forall|j: int| 0 <= j < i ==> (#[trigger] self@[j]).0 != code@,
            decreases self.codes.len() - i,
        {
            if self.codes[i].0 == *code {
                return Some(i);
            }
            i = i + 1;
        }
        None
    }

    /// Position of the entry whose game is `game`, if any.
    fn find_game(&self, game: &GameId) -> (r: Option<usize>)
        requires
            self.wf(),
        ensures
            match r {
                Some(i) => i < self@.len() && self@[i as int].1 == game.0@,
                None => !has_game(self@, game.0@),
            },
    {
        let mut i: usize = 0;
        while i < self.games.len()
            invariant
                self.wf(),
                i <= self.games.len(),
                forall|j: int| 0 <= j < i ==> (#[trigger] self@[j]).1 != game.0@,
            decreases self.games.len() - i,
        {
            if self.games[i].0 == game.0 {
                return Some(i);
            }
            i = i + 1;
        }
        None
    }

    /// The first code, in the order of `numbered_code`, that no entry uses.
    fn first_free_code(&self) -> (r: InviteCode)
        requires
            self.wf(),
            self@.len() < CODE_SPACE,
        ensures
            !has_code(self@, r.0@),
            r.0@.len() == CODE_LENGTH,
            is_code_text(r.0@),
    {
        proof {
            assert(code_count(CODE_LENGTH as nat) == CODE_SPACE) by {
                reveal_with_fuel(code_count, 7);
            }
        }
        let n = self.codes.len();
        let mut k: u64 = 0;
        while k <= n as u64
            invariant
                self.wf(),
                n == self@.len(),
                n < CODE_SPACE,
                code_count(CODE_LENGTH as nat) == CODE_SPACE,
                k <= n + 1,
                forall|j: int| 0 <= j < k ==> has_code(self@, #[trigger] numbered_code(j as nat, CODE_LENGTH as nat)),
            decreases n + 1 - k,
        {
            let candidate = append_numbered(String::new(), k, CODE_LENGTH);
            proof {
                assert(candidate@ =~= numbered_code(k as nat, CODE_LENGTH as nat));
            }
            if self.find_code(&candidate).is_none() {
                proof {
                    lemma_numbered_code_text(k as nat, CODE_LENGTH as nat);
                }
                return InviteCode(candidate);
            }
            k = k + 1;
        }
        proof {
            let cands = Seq::new((n + 1) as nat, |j: int| numbered_code(j as nat, CODE_LENGTH as nat));
            assert forall|a: int, b: int| 0 <= a < cands.len() && 0 <= b < cands.len() && a != b implies cands[a]
                != cands[b] by {
                if cands[a] == cands[b] {
                    lemma_numbered_code_injective(a as nat, b as nat, CODE_LENGTH as nat);
                }
            }
            assert forall|j: int| 0 <= j < cands.len() implies has_code(self@, #[trigger] cands[j]) by {
                assert(cands[j] == numbered_code(j as nat, CODE_LENGTH as nat));
            }
            lemma_pigeonhole(self@, cands);
        }
        InviteCode(String::new())
    }

    /// The code of `game_id`: the one it already has, or a new one that no
    /// other game uses. A new code is drawn at random up to `CODE_ATTEMPTS`
    /// times; should every draw collide, the first free code in the order of
    /// `numbered_code` is taken. A new code needs a free one: fewer than
    /// `CODE_SPACE` codes in use.
    pub fn create_code(&mut self, game_id: GameId) -> (r: InviteCode)
        requires
            old(self).wf(),
            has_game(old(self)@, game_id.0@) || old(self)@.len() < CODE_SPACE,
        ensures
            final(self).wf(),
            created(old(self)@, game_id.0@, r.0@, final(self)@),
            r.0@.len() == CODE_LENGTH,
            is_code_text(r.0@),
    {
        match self.find_game(&game_id) {
            Some(i) => {
                let code = self.codes[i].clone();
                proof {
                    assert(self@[i as int] == (code.0@, game_id.0@));
                    assert(self@.contains((code.0@, game_id.0@)));
                    assert(has_game(self@, game_id.0@));
                }
                code
            },
            None => {
                let mut attempt: usize = 0;
                let mut fresh: Option<InviteCode> = None;
                while attempt < CODE_ATTEMPTS && fresh.is_none()
                    invariant
                        self.wf(),
                        fresh matches Some(c) ==> !has_code(self@, c.0@) && is_code_text(c.0@) && c.0@.len()
                            == CODE_LENGTH,
                    decreases CODE_ATTEMPTS - attempt,
                {
                    let candidate = InviteCode::generate();
                    if self.find_code(&candidate.0).is_none() {
                        fresh = Some(candidate);
                    }
                    attempt = attempt + 1;
                }
                let code = match fresh {
                    Some(c) => c,
                    None => self.first_free_code(),
                };
                let ghost before = self@;
                self.codes.push(code.clone());
                self.games.push(game_id);
                proof {
                    assert(self@ =~= before.push((code.0@, game_id.0@)));
                }
                code
            },
        }
    }

    /// The game that `code` leads to, if any.
    pub fn resolve(&self, code: &InviteCode) -> (r: Option<&GameId>)
        requires
            self.wf(),
        ensures
            match r {
                Some(g) => resolves_to(self@, code.0@, g.0@),
                None => !has_code(self@, code.0@),
            },
            r matches Some(g) ==> forall|other: Seq<char>| resolves_to(self@, code.0@, other) ==> other == g.0@,
    {
        proof {
            assert forall|g1: Seq<char>, g2: Seq<char>| resolves_to(self@, code.0@, g1) && resolves_to(self@, code.0@, g2)
                implies g1 == g2 by {
                law_code_leads_to_one_game(self@, code.0@, g1, g2);
            }
        }
        match self.find_code(&code.0) {
            Some(i) => {
                let g = &self.games[i];
                assert(self@[i as int] == (code.0@, g.0@));
                Some(g)
            },
            None => None,
        }
    }

    /// Forgets the code of a game that has ended.
    pub fn remove_game(&mut self, game_id: &GameId)
        requires
            old(self).wf(),
        ensures
            final(self).wf(),
            removed(old(self)@, game_id.0@, final(self)@),
    {
        match self.find_game(game_id) {
            Some(i) => {
                let ghost before = self@;
                self.codes.remove(i);
                self.games.remove(i);
                proof {
                    assert(self@ =~= before.remove(i as int));
                    lemma_remove_entry(before, i as int, game_id.0@);
                }
            },
            None => {},
        }
    }
}

/// Shortest turn a new game may have.
pub const MIN_TURN_SECONDS: u64 = 30;

/// Longest turn a new game may have.
pub const MAX_TURN_SECONDS: u64 = 300;

/// A request to open a game with the given turn length.
pub struct CreateGameRequest {
    pub duration_seconds: u64,
}

/// The answer to an accepted request: the game's name and its invite code.
pub struct CreateGameResponse {
    pub game_id: GameId,
    pub invite_code: String,
}

/// The turn length lies between half a minute and five minutes.
pub open spec fn turn_length_ok(seconds: u64) -> bool {
    MIN_TURN_SECONDS <= seconds <= MAX_TURN_SECONDS
}

impl CreateGameRequest {
    /// The turn length asked for, when it is allowed.
    pub fn turn_length(&self) -> (r: Option<Seconds>)
        ensures
            r == (if turn_length_ok(self.duration_seconds) {
                Some(Seconds(self.duration_seconds))
            } else {
                None
            }),
    {
        if MIN_TURN_SECONDS <= self.duration_seconds && self.duration_seconds <= MAX_TURN_SECONDS {
            Some(Seconds(self.duration_seconds))
        } else {
            None
        }
    }
}

/// What became of the game an invite code names.
#[derive(Debug, Clone, Copy, PartialEq, Eq, Structural)]
pub enum GameStatus {
    /// The code leads to a game that is still running.
    Open,
    /// The code leads to a game whose room has closed.
    Ended,
    /// No game has this code.
    Unknown,
}

/// The game names in `live`.
pub open spec fn live_names(live: Seq<GameId>) -> Seq<Seq<char>> {
    live.map_values(|g: GameId| g.0@)
}

impl InviteCodeStore {
    /// Accepts a request to open the game `game_id`: when the turn length is
    /// allowed, the game gets its invite code; otherwise nothing changes.
    pub fn open_game(&mut self, request: &CreateGameRequest, game_id: GameId) -> (r: Option<
        (Seconds, CreateGameResponse),
    >)
        requires
            old(self).wf(),
            has_game(old(self)@, game_id.0@) || old(self)@.len() < CODE_SPACE,
        ensures
            final(self).wf(),
            match r {
                None => !turn_length_ok(request.duration_seconds) && final(self)@ == old(self)@,
                Some((turn, answer)) => {
                    &&& turn_length_ok(request.duration_seconds)
                    &&& turn == Seconds(request.duration_seconds)
                    &&& answer.game_id == game_id
                    &&& created(old(self)@, game_id.0@, answer.invite_code@, final(self)@)
                },
            },
    {
        match request.turn_length() {
            None => None,
            Some(turn) => {
                let code = self.create_code(game_id.clone());
                Some((turn, CreateGameResponse { game_id, invite_code: code.0 }))
            },
        }
    }

    /// Whether `code` names a game, and whether that game is among `live`.
    pub fn status(&self, code: &InviteCode, live: &Vec<GameId>) -> (r: GameStatus)
        requires
            self.wf(),
        ensures
            r == GameStatus::Unknown <==> !has_code(self@, code.0@),
            r == GameStatus::Open <==> exists|g: Seq<char>|
                resolves_to(self@, code.0@, g) && live_names(live@).contains(g),
            r == GameStatus::Ended <==> exists|g: Seq<char>|
                resolves_to(self@, code.0@, g) && !live_names(live@).contains(g),
    {
        match self.resolve(code) {
            None => {
                proof {
                    assert forall|g: Seq<char>| !resolves_to(self@, code.0@, g) by {
                        if resolves_to(self@, code.0@, g) {
                            let i = choose|i: int| 0 <= i < self@.len() && self@[i] == (code.0@, g);
                            assert(self@[i].0 == code.0@);
                        }
                    }
                }
                GameStatus::Unknown
            },
            Some(game) => {
                let mut i: usize = 0;
                let mut found = false;
                while i < live.len() && !found
                    invariant
                        i <= live.len(),
                        found ==> live_names(live@).contains(game.0@),
                        !found ==> forall|j: int| 0 <= j < i ==> live@[j].0@ != game.0@,
                    decreases live.len() - i,
                {
                    if live[i].0 == game.0 {
                        found = true;
                        assert(live_names(live@)[i as int] == game.0@);
                    }
                    i = i + 1;
                }
                proof {
                    assert(has_code(self@, code.0@)) by {
                        let k = choose|k: int| 0 <= k < self@.len() && self@[k] == (code.0@, game.0@);
                        assert(self@[k].0 == code.0@);
                    }
                    assert forall|g: Seq<char>| resolves_to(self@, code.0@, g) implies g
                        == game.0@ by {
                        law_code_leads_to_one_game(self@, code.0@, g, game.0@);
                    }
                    if !found {
                        assert(!live_names(live@).contains(game.0@)) by {
                            if live_names(live@).contains(game.0@) {
                                let j = choose|j: int| 0 <= j < live_names(live@).len() && live_names(live@)[j] == game.0@;
                                assert(live@[j].0@ == game.0@);
                            }
                        }
                    }
                }
                if found {
                    GameStatus::Open
                } else {
                    GameStatus::Ended
                }
            },
        }
    }
}

/// A code that `create_code` hands out leads back to its game.
pub proof fn law_created_code_resolves(
    before: Seq<(Seq<char>, Seq<char>)>,
    game: Seq<char>,
    code: Seq<char>,
    after: Seq<(Seq<char>, Seq<char>)>,
)
    requires
        created(before, game, code, after),
    ensures
        resolves_to(after, code, game),
{
    if !has_game(before, game) {
        assert(after[before.len() as int] == (code, game));
    }
}

/// Asking twice for the code of one game gives the same code and changes
/// nothing the second time.
pub proof fn law_create_code_is_stable(
    before: Seq<(Seq<char>, Seq<char>)>,
    game: Seq<char>,
    first: Seq<char>,
    middle: Seq<(Seq<char>, Seq<char>)>,
    second: Seq<char>,
    after: Seq<(Seq<char>, Seq<char>)>,
)
    requires
        one_to_one(before),
        created(before, game, first, middle),
        created(middle, game, second, after),
        one_to_one(middle),
    ensures
        first == second,
        after == middle,
{
    law_created_code_resolves(before, game, first, middle);
    assert(middle.contains((first, game)));
    let i = choose|i: int| 0 <= i < middle.len() && middle[i] == (first, game);
    assert(has_game(middle, game));
    assert(middle.contains((second, game)));
    let j = choose|j: int| 0 <= j < middle.len() && middle[j] == (second, game);
    if i != j {
        assert(middle[i].1 != middle[j].1);
    }
}

/// In a store where no code occurs twice, a code leads to at most one game.
pub proof fn law_code_leads_to_one_game(
    entries: Seq<(Seq<char>, Seq<char>)>,
    code: Seq<char>,
    game1: Seq<char>,
    game2: Seq<char>,
)
    requires
        one_to_one(entries),
        resolves_to(entries, code, game1),
        resolves_to(entries, code, game2),
    ensures
        game1 == game2,
{
    let i = choose|i: int| 0 <= i < entries.len() && entries[i] == (code, game1);
    let j = choose|j: int| 0 <= j < entries.len() && entries[j] == (code, game2);
    if i != j {
        assert(entries[i].0 != entries[j].0);
    }
}

/// Once a game is removed no code leads to it, and every other game keeps
/// its code.
pub proof fn law_removed_game_is_gone(
    before: Seq<(Seq<char>, Seq<char>)>,
    game: Seq<char>,
    after: Seq<(Seq<char>, Seq<char>)>,
    code: Seq<char>,
    other: Seq<char>,
)
    requires
        removed(before, game, after),
    ensures
        !resolves_to(after, code, game),
        other != game ==> (resolves_to(after, code, other) <==> resolves_to(before, code, other)),
{
    assert(after.contains((code, game)) <==> before.contains((code, game)) && game != game);
    assert(after.contains((code, other)) <==> before.contains((code, other)) && other != game);
}

} // verus!
