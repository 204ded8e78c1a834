# topo

A two-player card game played with a double deck: each player empties a
personal pile and a hand onto shared ascending scales, Ace to Queen, with
four side stacks to park cards on. Games run in rooms that players join
through short invite codes.

The rules, rooms and invite codes are written in Verus and verified:

- `src/card.rs`, `deck.rs`, `dealer.rs`, `board.rs`, `scale.rs`,
  `scale_manager.rs`, `state.rs`, `state_spec.rs`: cards, piles, boards,
  scales and the game itself; `apply_move` is specified by `next_move`.
- `src/game_laws.rs`: properties of every move (no card is created or lost,
  only the player on turn moves, one draw per turn, ...).
- `src/room.rs`, `lobby.rs`, `playing.rs`, `over.rs`, `game_room.rs`,
  `room_events.rs`, `full_state.rs`, `protocol.rs`: a room as a state
  machine from commands to a new room and a list of effects (messages,
  timers) for its caller to carry out.
- `src/invite.rs`, `users.rs`, `auth.rs`, `ids.rs`: invite codes, accounts,
  password hashes and tokens, names.
- `src/game/`: a second, simpler rule set with its own room session.
- `src/outside.rs` and the wrappers at the top of `src/auth.rs`: the calls
  into `rand`, `uuid` and `cargo-smith`, each with the contract it is
  trusted to meet.

`app/` is the server around the library (actix-web routes, websockets,
the task that runs each room and its timers); `tests/` runs the library on
concrete games.

Two choices that shape the library:

- The invite store, and the room's members, participants and request
  lists, are `Vec`s whose entries are kept distinct by an invariant, in
  place of hash maps and sets keyed by strings and player ids. vstd's
  specification of `HashMap` only speaks of lookups when the key type obeys
  its key model, which a `String` or a struct of this crate cannot be shown
  to do; with `Vec`s every lookup is proved.
- `jsonwebtoken` is a direct dependency so that the library can read a
  token back (`auth::read_token`, the decode that the name `token_claims`
  stands for): that is how the contracts of the sign-in functions say which
  account a token belongs to.
