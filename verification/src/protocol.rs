//! What the server tells its clients and what clients may send.
use vstd::prelude::*;

use crate::actions::Action;
use crate::card::{Card, DeckColor};
use crate::ids::{GameId, PlayerId, PlayerIdx, ScaleIdx, Seconds, StackIdx};
use crate::scale::Scale;

verus! {

/// Why a client's request was refused.
#[derive(Debug, Clone, Copy, PartialEq, Eq, Structural)]
pub enum ErrorCode {
    NotYourTurn,
    InvalidMove,
    CardNotFound,
    StackFull,
    GameNotStarted,
    GameOver,
}

/// Context of a refusal: who asked, and the request as text.
#[derive(Debug, Clone, PartialEq, Eq)]
pub struct ErrorDetails {
    pub player_id: Option<PlayerId>,
    pub action: Option<String>,
    pub card_id: Option<String>,
}

/// A personal pile as others may see it: its size, its top card, and the
/// deck colors of the cards right under the top.
#[derive(Debug, Clone, PartialEq, Eq)]
pub struct PersonalPileView {
    pub count: usize,
    pub top: Option<Card>,
    pub colors: Vec<DeckColor>,
}

/// A player's own board as sent to that player.
#[derive(Debug, Clone, PartialEq, Eq)]
pub struct PlayerBoardView {
    pub player_idx: usize,
    pub personal: PersonalPileView,
    pub side: [Vec<Card>; 4],
    pub hand: Vec<Card>,
}

/// The other player's board as a player sees it: the hand shows only card
/// backs.
#[derive(Debug, Clone, PartialEq, Eq)]
pub struct OpponentView {
    pub player_idx: PlayerIdx,
    pub username: String,
    pub hand: Vec<Card>,
    pub personal_count: usize,
    pub personal_top: Option<Card>,
    pub side: [Vec<Card>; 4],
}

/// Everything the server pushes to the players of a room.
#[derive(Debug, Clone, PartialEq, Eq)]
pub enum ServerEvent {
    PlayerJoined { player_id: PlayerId, player_idx: PlayerIdx, username: String },
    PlayerLeft { player_id: PlayerId, player_idx: PlayerIdx },
    PlayerReady { player_id: PlayerId },
    WaitingForPlayer { game_id: GameId },
    GameStarted { current_player_id: PlayerId, current_player_idx: PlayerIdx, turn_seconds: Seconds },
    HandRefill { player_id: PlayerId, player_idx: PlayerIdx, cards: Vec<Card>, turn_seconds_remaining: Seconds },
    PersonalPileUpdated { player_id: PlayerId, player_idx: PlayerIdx, personal_view: PersonalPileView },
    CardPlayedOnScale {
        player_id: PlayerId,
        player_idx: PlayerIdx,
        card: Card,
        scale_idx: ScaleIdx,
        completed: bool,
        turn_seconds_remaining: Seconds,
    },
    CardPlacedOnSide {
        player_id: PlayerId,
        player_idx: PlayerIdx,
        card: Card,
        stack_idx: StackIdx,
        turn_seconds_remaining: Seconds,
    },
    ScaleCompleted { scale_idx: ScaleIdx, by_player_id: PlayerId, by_player_idx: PlayerIdx },
    GameStarting { seconds_remaining: u8 },
    OpponentUpdate {
        player_id: PlayerId,
        player_idx: PlayerIdx,
        personal_count: usize,
        personal_top: Option<Card>,
        hand: Vec<Card>,
        side: [Vec<Card>; 4],
        turn_seconds_remaining: Seconds,
    },
    OpponentLeft,
    TurnEnded {
        next_player_id: PlayerId,
        next_player_idx: PlayerIdx,
        turn_seconds: Seconds,
        timed_out_player_id: Option<PlayerId>,
        timed_out_player_idx: Option<PlayerIdx>,
    },
    GameOver { winner_id: PlayerId, winner_idx: PlayerIdx, reason: String },
    FullState {
        player_id: PlayerId,
        your_board: PlayerBoardView,
        your_turn: bool,
        opponent: OpponentView,
        scales: Vec<Option<Scale>>,
        dealer_preview: Vec<DeckColor>,
        dealer_count: usize,
        turn_seconds_remaining: Seconds,
    },
    PlayerDisconnected { player_id: PlayerId, player_idx: PlayerIdx, grace_period_seconds: u64 },
    PlayerReconnected { player_id: PlayerId, player_idx: PlayerIdx, turn_seconds_remaining: Seconds },
    PlayAgain { player_id: PlayerId },
    PlayAgainRequested { player_id: PlayerId },
    Error { code: ErrorCode, message: Option<String>, details: Option<ErrorDetails> },
}

/// A personal pile view as plain values.
pub struct PileModel {
    pub count: nat,
    pub top: Option<Card>,
    pub colors: Seq<DeckColor>,
}

/// An own-board view as plain values.
pub struct OwnBoardModel {
    pub player_idx: usize,
    pub personal: PileModel,
    pub side: Seq<Seq<Card>>,
    pub hand: Seq<Card>,
}

/// An opponent view as plain values.
pub struct OpponentModel {
    pub player_idx: PlayerIdx,
    pub username: Seq<char>,
    pub hand: Seq<Card>,
    pub personal_count: nat,
    pub personal_top: Option<Card>,
    pub side: Seq<Seq<Card>>,
}

/// A refusal's context as plain values.
pub struct DetailsModel {
    pub player_id: Option<PlayerId>,
    pub action: Option<Seq<char>>,
    pub card_id: Option<Seq<char>>,
}

/// A server event as plain values.
pub enum EventModel {
    PlayerJoined { player_id: PlayerId, player_idx: PlayerIdx, username: Seq<char> },
    PlayerLeft { player_id: PlayerId, player_idx: PlayerIdx },
    PlayerReady { player_id: PlayerId },
    WaitingForPlayer { game_id: Seq<char> },
    GameStarted { current_player_id: PlayerId, current_player_idx: PlayerIdx, turn_seconds: Seconds },
    HandRefill { player_id: PlayerId, player_idx: PlayerIdx, cards: Seq<Card>, turn_seconds_remaining: Seconds },
    PersonalPileUpdated { player_id: PlayerId, player_idx: PlayerIdx, personal_view: PileModel },
    CardPlayedOnScale {
        player_id: PlayerId,
        player_idx: PlayerIdx,
        card: Card,
        scale_idx: ScaleIdx,
        completed: bool,
        turn_seconds_remaining: Seconds,
    },
    CardPlacedOnSide {
        player_id: PlayerId,
        player_idx: PlayerIdx,
        card: Card,
        stack_idx: StackIdx,
        turn_seconds_remaining: Seconds,
    },
    ScaleCompleted { scale_idx: ScaleIdx, by_player_id: PlayerId, by_player_idx: PlayerIdx },
    GameStarting { seconds_remaining: u8 },
    OpponentUpdate {
        player_id: PlayerId,
        player_idx: PlayerIdx,
        personal_count: nat,
        personal_top: Option<Card>,
        hand: Seq<Card>,
        side: Seq<Seq<Card>>,
        turn_seconds_remaining: Seconds,
    },
    OpponentLeft,
    TurnEnded {
        next_player_id: PlayerId,
        next_player_idx: PlayerIdx,
        turn_seconds: Seconds,
        timed_out_player_id: Option<PlayerId>,
        timed_out_player_idx: Option<PlayerIdx>,
    },
    GameOver { winner_id: PlayerId, winner_idx: PlayerIdx, reason: Seq<char> },
    FullState {
        player_id: PlayerId,
        your_board: OwnBoardModel,
        your_turn: bool,
        opponent: OpponentModel,
        scales: Seq<Option<(ScaleIdx, Seq<Card>)>>,
        dealer_preview: Seq<DeckColor>,
        dealer_count: nat,
        turn_seconds_remaining: Seconds,
    },
    PlayerDisconnected { player_id: PlayerId, player_idx: PlayerIdx, grace_period_seconds: u64 },
    PlayerReconnected { player_id: PlayerId, player_idx: PlayerIdx, turn_seconds_remaining: Seconds },
    PlayAgain { player_id: PlayerId },
    PlayAgainRequested { player_id: PlayerId },
    Error { code: ErrorCode, message: Option<Seq<char>>, details: Option<DetailsModel> },
}

/// The four stacks of an array of side stacks, as sequences.
pub open spec fn side_model(side: [Vec<Card>; 4]) -> Seq<Seq<Card>> {
    Seq::new(4, |i: int| side[i]@)
}

/// The slots of a scale table: each scale's number and cards.
pub open spec fn slots_model(scales: Seq<Option<Scale>>) -> Seq<Option<(ScaleIdx, Seq<Card>)>> {
    Seq::new(scales.len(), |i: int| match scales[i] {
        Some(s) => Some((s.scale_idx, s.cards@)),
        None => None,
    })
}

pub open spec fn text_model(s: Option<String>) -> Option<Seq<char>> {
    match s {
        Some(t) => Some(t@),
        None => None,
    }
}

impl PersonalPileView {
    pub open spec fn model(&self) -> PileModel {
        PileModel { count: self.count as nat, top: self.top, colors: self.colors@ }
    }
}

impl PlayerBoardView {
    pub open spec fn model(&self) -> OwnBoardModel {
        OwnBoardModel {
            player_idx: self.player_idx,
            personal: self.personal.model(),
            side: side_model(self.side),
            hand: self.hand@,
        }
    }
}

impl OpponentView {
    pub open spec fn model(&self) -> OpponentModel {
        OpponentModel {
            player_idx: self.player_idx,
            username: self.username@,
            hand: self.hand@,
            personal_count: self.personal_count as nat,
            personal_top: self.personal_top,
            side: side_model(self.side),
        }
    }
}

impl ErrorDetails {
    pub open spec fn model(&self) -> DetailsModel {
        DetailsModel { player_id: self.player_id, action: text_model(self.action), card_id: text_model(self.card_id) }
    }
}

impl ServerEvent {
    /// The event as plain values.
    pub open spec fn model(&self) -> EventModel {
        match *self {
            ServerEvent::PlayerJoined { player_id, player_idx, username } =>
                EventModel::PlayerJoined { player_id, player_idx, username: username@ },
            ServerEvent::PlayerLeft { player_id, player_idx } => EventModel::PlayerLeft { player_id, player_idx },
            ServerEvent::PlayerReady { player_id } => EventModel::PlayerReady { player_id },
            ServerEvent::WaitingForPlayer { game_id } => EventModel::WaitingForPlayer { game_id: game_id.0@ },
            ServerEvent::GameStarted { current_player_id, current_player_idx, turn_seconds } =>
                EventModel::GameStarted { current_player_id, current_player_idx, turn_seconds },
            ServerEvent::HandRefill { player_id, player_idx, cards, turn_seconds_remaining } =>
                EventModel::HandRefill { player_id, player_idx, cards: cards@, turn_seconds_remaining },
            ServerEvent::PersonalPileUpdated { player_id, player_idx, personal_view } =>
                EventModel::PersonalPileUpdated { player_id, player_idx, personal_view: personal_view.model() },
            ServerEvent::CardPlayedOnScale { player_id, player_idx, card, scale_idx, completed, turn_seconds_remaining } =>
                EventModel::CardPlayedOnScale { player_id, player_idx, card, scale_idx, completed, turn_seconds_remaining },
            ServerEvent::CardPlacedOnSide { player_id, player_idx, card, stack_idx, turn_seconds_remaining } =>
                EventModel::CardPlacedOnSide { player_id, player_idx, card, stack_idx, turn_seconds_remaining },
            ServerEvent::ScaleCompleted { scale_idx, by_player_id, by_player_idx } =>
                EventModel::ScaleCompleted { scale_idx, by_player_id, by_player_idx },
            ServerEvent::GameStarting { seconds_remaining } => EventModel::GameStarting { seconds_remaining },
            ServerEvent::OpponentUpdate { player_id, player_idx, personal_count, personal_top, hand, side, turn_seconds_remaining } =>
                EventModel::OpponentUpdate {
                    player_id,
                    player_idx,
                    personal_count: personal_count as nat,
                    personal_top,
                    hand: hand@,
                    side: side_model(side),
                    turn_seconds_remaining,
                },
            ServerEvent::OpponentLeft => EventModel::OpponentLeft,
            ServerEvent::TurnEnded { next_player_id, next_player_idx, turn_seconds, timed_out_player_id, timed_out_player_idx } =>
                EventModel::TurnEnded { next_player_id, next_player_idx, turn_seconds, timed_out_player_id, timed_out_player_idx },
            ServerEvent::GameOver { winner_id, winner_idx, reason } =>
                EventModel::GameOver { winner_id, winner_idx, reason: reason@ },
            ServerEvent::FullState {
                player_id,
                your_board,
                your_turn,
                opponent,
                scales,
                dealer_preview,
                dealer_count,
                turn_seconds_remaining,
            } => EventModel::FullState {
                player_id,
                your_board: your_board.model(),
                your_turn,
                opponent: opponent.model(),
                scales: slots_model(scales@),
                dealer_preview: dealer_preview@,
                dealer_count: dealer_count as nat,
                turn_seconds_remaining,
            },
            ServerEvent::PlayerDisconnected { player_id, player_idx, grace_period_seconds } =>
                EventModel::PlayerDisconnected { player_id, player_idx, grace_period_seconds },
            ServerEvent::PlayerReconnected { player_id, player_idx, turn_seconds_remaining } =>
                EventModel::PlayerReconnected { player_id, player_idx, turn_seconds_remaining },
            ServerEvent::PlayAgain { player_id } => EventModel::PlayAgain { player_id },
            ServerEvent::PlayAgainRequested { player_id } => EventModel::PlayAgainRequested { player_id },
            ServerEvent::Error { code, message, details } => EventModel::Error {
                code,
                message: text_model(message),
                details: match details {
                    Some(d) => Some(d.model()),
                    None => None,
                },
            },
        }
    }
}

/// The models of a row of events, in order.
pub open spec fn events_model(events: Seq<ServerEvent>) -> Seq<EventModel> {
    events.map_values(|e: ServerEvent| e.model())
}

/// What a player may do in the lobby or after a game.
#[derive(Debug, Clone, Copy, PartialEq, Eq, Structural)]
pub enum LobbyAction {
    PlayerReady,
    PlayAgain,
    Leave,
}

/// A message from a client: a lobby request or a move.
#[derive(Debug, Clone, Copy, PartialEq, Eq, Structural)]
pub enum ClientMessage {
    Lobby(LobbyAction),
    Game(Action),
}

/// The query of a websocket request: who connects, under which name.
#[derive(Debug, Clone, PartialEq, Eq)]
pub struct WsQuery {
    pub player_id: String,
    pub username: Option<String>,
}

/// An event addressed to one player (`to`) or to all of them.
#[derive(Debug, Clone, PartialEq, Eq)]
pub struct GameMessage {
    pub to: Option<PlayerId>,
    pub event: ServerEvent,
}

} // verus!
