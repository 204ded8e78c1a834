//! What every move keeps: no card is ever created or lost, and the turn
//! passes only as the rules say.
use vstd::prelude::*;
use vstd::multiset::Multiset;
use vstd::seq_lib::lemma_multiset_commutative;

use crate::actions::{Action, MoveSuccess, TurnPhase};
use crate::board::{BoardModel, NORMAL_HAND_SIZE, SIDE_STACKS};
use crate::card::Card;
use crate::dealer::{draw_step, draw_steps, law_draws_take_what_is_there, lemma_draw_step_count, lemma_draw_step_keeps_cards, lemma_draw_steps_keep_cards};
use crate::ids::{HandIdx, PlayerIdx, ScaleIdx};
use crate::scale::SCALE_LEN;
use crate::scale_manager::{first_free_slot, lemma_first_free_slot};
use crate::state_spec::{
    action_step, draw_phase, finish_play, find_player, lemma_find_player, missing_cards, next_move, open_with,
    opt_cards, place_discards, placed_run, play_onto, refill, table_open, table_place, GameModel, GamePhase,
    Outcome, Refusal,
};

verus! {

broadcast use vstd::seq_lib::group_to_multiset_ensures, vstd::multiset::group_multiset_axioms;

/// The cards of all the items of `s`, item by item through `f`.
pub open spec fn sum_cards<T>(s: Seq<T>, f: spec_fn(T) -> Multiset<Card>) -> Multiset<Card>
    decreases s.len(),
{
    if s.len() == 0 {
        Multiset::empty()
    } else {
        sum_cards(s.drop_last(), f).add(f(s.last()))
    }
}

pub open spec fn seq_cards(s: Seq<Card>) -> Multiset<Card> {
    s.to_multiset()
}

pub open spec fn slot_cards_of(o: Option<Seq<Card>>) -> Multiset<Card> {
    opt_cards(o).to_multiset()
}

/// The cards of all side stacks.
pub open spec fn sides_cards(ss: Seq<Seq<Card>>) -> Multiset<Card> {
    sum_cards(ss, |s: Seq<Card>| seq_cards(s))
}

/// All the cards on one board: personal pile, hand and side stacks.
pub open spec fn board_cards(b: BoardModel) -> Multiset<Card> {
    b.personal.to_multiset().add(b.hand.to_multiset()).add(sides_cards(b.sides))
}

/// The cards on all boards.
pub open spec fn boards_cards(ps: Seq<BoardModel>) -> Multiset<Card> {
    sum_cards(ps, |b: BoardModel| board_cards(b))
}

/// The cards of all scales on the table.
pub open spec fn table_cards(t: Seq<Option<Seq<Card>>>) -> Multiset<Card> {
    sum_cards(t, |o: Option<Seq<Card>>| slot_cards_of(o))
}

/// Every card of a game: on the boards, in the two piles and on the table.
pub open spec fn all_cards(m: GameModel) -> Multiset<Card> {
    boards_cards(m.players).add(m.draw.to_multiset()).add(m.discard.to_multiset()).add(table_cards(m.table))
}

pub proof fn lemma_sum_update<T>(s: Seq<T>, i: int, x: T, f: spec_fn(T) -> Multiset<Card>)
    requires
        0 <= i < s.len(),
    ensures
        sum_cards(s.update(i, x), f).add(f(s[i])) == sum_cards(s, f).add(f(x)),
    decreases s.len(),
{
    let u = s.update(i, x);
    if i == s.len() - 1 {
        assert(u.drop_last() =~= s.drop_last());
        assert(u.last() == x);
        assert(sum_cards(u, f) == sum_cards(s.drop_last(), f).add(f(x)));
        assert(sum_cards(s, f) == sum_cards(s.drop_last(), f).add(f(s[i])));
        assert(sum_cards(u, f).add(f(s[i])) =~= sum_cards(s, f).add(f(x)));
    } else {
        lemma_sum_update(s.drop_last(), i, x, f);
        assert(s.drop_last()[i] == s[i]);
        assert(u.drop_last() =~= s.drop_last().update(i, x));
        assert(u.last() == s.last());
        assert(sum_cards(u, f) == sum_cards(s.drop_last().update(i, x), f).add(f(s.last())));
        assert(sum_cards(s, f) == sum_cards(s.drop_last(), f).add(f(s.last())));
        let a = sum_cards(s.drop_last().update(i, x), f);
        let b = sum_cards(s.drop_last(), f);
        assert(a.add(f(s[i])) == b.add(f(x)));
        assert forall|v: Card| #[trigger] sum_cards(u, f).add(f(s[i])).count(v) == sum_cards(s, f).add(f(x)).count(v) by {
            assert(a.add(f(s[i])).count(v) == b.add(f(x)).count(v));
        }
        assert(sum_cards(u, f).add(f(s[i])) =~= sum_cards(s, f).add(f(x)));
    }
}

pub proof fn lemma_sum_push<T>(s: Seq<T>, x: T, f: spec_fn(T) -> Multiset<Card>)
    ensures
        sum_cards(s.push(x), f) == sum_cards(s, f).add(f(x)),
{
    assert(s.push(x).drop_last() =~= s);
}

/// Replacing a board replaces its cards in the count of all boards.
proof fn lemma_boards_update(ps: Seq<BoardModel>, p: int, b: BoardModel)
    requires
        0 <= p < ps.len(),
    ensures
        boards_cards(ps.update(p, b)).add(board_cards(ps[p])) == boards_cards(ps).add(board_cards(b)),
{
    lemma_sum_update(ps, p, b, |b: BoardModel| board_cards(b));
}

proof fn lemma_sides_update(ss: Seq<Seq<Card>>, i: int, s: Seq<Card>)
    requires
        0 <= i < ss.len(),
    ensures
        sides_cards(ss.update(i, s)).add(ss[i].to_multiset()) == sides_cards(ss).add(s.to_multiset()),
{
    lemma_sum_update(ss, i, s, |s: Seq<Card>| seq_cards(s));
}

proof fn lemma_table_update(t: Seq<Option<Seq<Card>>>, i: int, o: Option<Seq<Card>>)
    requires
        0 <= i < t.len(),
    ensures
        table_cards(t.update(i, o)).add(slot_cards_of(t[i])) == table_cards(t).add(slot_cards_of(o)),
{
    lemma_sum_update(t, i, o, |o: Option<Seq<Card>>| slot_cards_of(o));
}

/// Drawing moves cards from the piles and nowhere else.
proof fn lemma_piles(draw: Seq<Card>, discard: Seq<Card>)
    ensures
        (draw + discard).to_multiset() == draw.to_multiset().add(discard.to_multiset()),
{
    lemma_multiset_commutative(draw, discard);
}

proof fn lemma_draw_steps_piles(draw: Seq<Card>, discard: Seq<Card>, n: nat)
    ensures
        ({
            let (d, x, cs) = draw_steps(draw, discard, n);
            draw.to_multiset().add(discard.to_multiset()) == d.to_multiset().add(x.to_multiset()).add(cs.to_multiset())
        }),
{
    lemma_draw_steps_keep_cards(draw, discard, n);
    let (d, x, cs) = draw_steps(draw, discard, n);
    lemma_piles(draw, discard);
    lemma_piles(d, x);
}

proof fn lemma_draw_phase_piles(draw: Seq<Card>, discard: Seq<Card>, hand: Seq<Card>)
    ensures
        ({
            let (d, x, cs) = draw_phase(draw, discard, hand);
            draw.to_multiset().add(discard.to_multiset()) == d.to_multiset().add(x.to_multiset()).add(cs.to_multiset())
        }),
{
    lemma_draw_step_keeps_cards(draw, discard);
    lemma_piles(draw, discard);
    let (d1, x1, c) = draw_step(draw, discard);
    lemma_piles(d1, x1);
    let first = match c {
        Some(card) => seq![card],
        None => Seq::<Card>::empty(),
    };
    let k = missing_cards(hand.len() + first.len());
    lemma_draw_steps_piles(d1, x1, k);
    let (d2, x2, rest) = draw_steps(d1, x1, k);
    lemma_multiset_commutative(first, rest);
    assert(seq![c->0].to_multiset() =~= Multiset::empty().insert(c->0)) by {
        assert(seq![c->0] =~= Seq::<Card>::empty().push(c->0));
    }
}

proof fn lemma_refill_piles(draw: Seq<Card>, discard: Seq<Card>, hand: Seq<Card>)
    ensures
        ({
            let (d, x, cs) = refill(draw, discard, hand);
            draw.to_multiset().add(discard.to_multiset()) == d.to_multiset().add(x.to_multiset()).add(cs.to_multiset())
        }),
{
    if hand.len() == 0 {
        lemma_draw_steps_piles(draw, discard, 5);
    } else {
        assert(draw.to_multiset().add(discard.to_multiset()) =~= draw.to_multiset().add(discard.to_multiset()).add(
            Seq::<Card>::empty().to_multiset()));
    }
}

/// The end of a play keeps every card: the cards now on board `b`, on the
/// new table, the discarded ones and the piles are all there were.
proof fn lemma_finish_play_cards(
    m: GameModel,
    p: int,
    b: BoardModel,
    table: Seq<Option<Seq<Card>>>,
    discarded: Option<Seq<Card>>,
    success: MoveSuccess,
)
    requires
        0 <= p < m.players.len(),
    ensures
        all_cards(finish_play(m, p, b, table, discarded, success).0).add(board_cards(m.players[p]))
            .add(table_cards(m.table))
            == all_cards(m).add(board_cards(b)).add(opt_cards(discarded).to_multiset()).add(table_cards(table)),
{
    let x = m.discard + opt_cards(discarded);
    let (d, x2, drawn) = refill(m.draw, x, b.hand);
    lemma_refill_piles(m.draw, x, b.hand);
    lemma_piles(m.discard, opt_cards(discarded));
    let b2 = BoardModel { hand: b.hand + drawn, ..b };
    lemma_multiset_commutative(b.hand, drawn);
    lemma_boards_update(m.players, p, b2);
    let r = finish_play(m, p, b, table, discarded, success).0;
    assert(board_cards(b2) =~= board_cards(b).add(drawn.to_multiset()));
    let ps = m.players;
    assert forall|v: Card| #[trigger] all_cards(r).add(board_cards(m.players[p])).add(table_cards(m.table)).count(v)
        == all_cards(m).add(board_cards(b)).add(opt_cards(discarded).to_multiset()).add(table_cards(table)).count(v) by {
        assert(boards_cards(ps.update(p, b2)).add(board_cards(ps[p])).count(v) == boards_cards(ps).add(board_cards(b2)).count(v));
        assert(board_cards(b2).count(v) == board_cards(b).add(drawn.to_multiset()).count(v));
        assert(m.draw.to_multiset().add(x.to_multiset()).count(v) == d.to_multiset().add(x2.to_multiset()).add(drawn.to_multiset()).count(v));
        assert(x.to_multiset().count(v) == m.discard.to_multiset().add(opt_cards(discarded).to_multiset()).count(v));
    }
    assert(all_cards(r).add(board_cards(m.players[p])).add(table_cards(m.table))
        =~= all_cards(m).add(board_cards(b)).add(opt_cards(discarded).to_multiset()).add(table_cards(table)));
}


/// Swapping a board for one with the same cards keeps every card of the game.
proof fn lemma_replace_board(m: GameModel, p: int, b2: BoardModel)
    requires
        0 <= p < m.players.len(),
        board_cards(b2) == board_cards(m.players[p]),
    ensures
        all_cards(GameModel { players: m.players.update(p, b2), ..m }) == all_cards(m),
{
    lemma_boards_update(m.players, p, b2);
    let r = GameModel { players: m.players.update(p, b2), ..m };
    assert forall|v: Card| #[trigger] all_cards(r).count(v) == all_cards(m).count(v) by {
        assert(boards_cards(m.players.update(p, b2)).add(board_cards(m.players[p])).count(v)
            == boards_cards(m.players).add(board_cards(b2)).count(v));
    }
    assert(all_cards(r) =~= all_cards(m));
}

/// Taking the card at `h` out of a hand.
proof fn lemma_hand_remove(hand: Seq<Card>, h: int)
    requires
        0 <= h < hand.len(),
    ensures
        hand.to_multiset() == hand.remove(h).to_multiset().insert(hand[h]),
{
    assert(hand.remove(h).to_multiset() == hand.to_multiset().remove(hand[h]));
    assert(hand.to_multiset().count(hand[h]) > 0) by {
        assert(hand.contains(hand[h]));
    }
    assert(hand.to_multiset() =~= hand.remove(h).to_multiset().insert(hand[h]));
}

/// Taking the top card off a pile.
proof fn lemma_pile_pop(pile: Seq<Card>)
    requires
        pile.len() > 0,
    ensures
        pile.to_multiset() == pile.drop_last().to_multiset().insert(pile.last()),
{
    assert(pile =~= pile.drop_last().push(pile.last()));
}

/// Putting `card` on side stack `st`.
proof fn lemma_side_push(ss: Seq<Seq<Card>>, st: int, card: Card)
    requires
        0 <= st < ss.len(),
    ensures
        sides_cards(ss.update(st, ss[st].push(card))) == sides_cards(ss).insert(card),
{
    lemma_sides_update(ss, st, ss[st].push(card));
    let u = ss.update(st, ss[st].push(card));
    assert forall|v: Card| #[trigger] sides_cards(u).count(v) == sides_cards(ss).insert(card).count(v) by {
        assert(sides_cards(u).add(ss[st].to_multiset()).count(v) == sides_cards(ss).add(ss[st].push(card).to_multiset()).count(v));
        assert(ss[st].push(card).to_multiset() == ss[st].to_multiset().insert(card));
    }
    assert(sides_cards(u) =~= sides_cards(ss).insert(card));
}

/// Taking the top card off side stack `st`.
proof fn lemma_side_pop(ss: Seq<Seq<Card>>, st: int)
    requires
        0 <= st < ss.len(),
        ss[st].len() > 0,
    ensures
        sides_cards(ss) == sides_cards(ss.update(st, ss[st].drop_last())).insert(ss[st].last()),
{
    let dl = ss[st].drop_last();
    let u = ss.update(st, dl);
    lemma_side_push(u, st, ss[st].last());
    assert(ss[st] =~= dl.push(ss[st].last()));
    assert(u.update(st, u[st].push(ss[st].last())) =~= ss);
}

/// The slot row after placing `card` on slot `s`, plus what was discarded,
/// holds the cards it held before and `card`.
proof fn lemma_table_place_cards(t: Seq<Option<Seq<Card>>>, s: ScaleIdx, card: Card)
    requires
        s.0 < t.len(),
        t[s.0 as int] is Some,
    ensures
        table_cards(table_place(t, s, card)).add(opt_cards(place_discards(t, s, card)).to_multiset())
            == table_cards(t).insert(card),
{
    let i = s.0 as int;
    let old_run = t[i]->0;
    let run = placed_run(t, s, card);
    assert(run.to_multiset() == old_run.to_multiset().insert(card));
    let t2 = table_place(t, s, card);
    let disc = opt_cards(place_discards(t, s, card)).to_multiset();
    if run.len() == SCALE_LEN {
        lemma_table_update(t, i, None);
        assert forall|v: Card| #[trigger] table_cards(t2).add(disc).count(v) == table_cards(t).insert(card).count(v) by {
            assert(table_cards(t.update(i, None)).add(slot_cards_of(t[i])).count(v)
                == table_cards(t).add(slot_cards_of(None)).count(v));
            assert(slot_cards_of(None::<Seq<Card>>) =~= Multiset::empty());
        }
    } else {
        lemma_table_update(t, i, Some(run));
        assert forall|v: Card| #[trigger] table_cards(t2).add(disc).count(v) == table_cards(t).insert(card).count(v) by {
            assert(table_cards(t.update(i, Some(run))).add(slot_cards_of(t[i])).count(v)
                == table_cards(t).add(slot_cards_of(Some(run))).count(v));
            assert(disc =~= Multiset::empty());
        }
    }
    assert(table_cards(t2).add(disc) =~= table_cards(t).insert(card));
}

/// Opening a scale with `card` adds just that card to the table.
proof fn lemma_table_open_cards(t: Seq<Option<Seq<Card>>>, card: Card)
    ensures
        table_cards(table_open(t, card)) == table_cards(t).insert(card),
{
    lemma_first_free_slot(t);
    let i = first_free_slot(t);
    assert(seq![card].to_multiset() =~= Multiset::empty().insert(card)) by {
        assert(seq![card] =~= Seq::<Card>::empty().push(card));
    }
    if i < t.len() {
        lemma_table_update(t, i, Some(seq![card]));
        assert forall|v: Card| #[trigger] table_cards(table_open(t, card)).count(v) == table_cards(t).insert(card).count(v) by {
            assert(table_cards(t.update(i, Some(seq![card]))).add(slot_cards_of(t[i])).count(v)
                == table_cards(t).add(slot_cards_of(Some(seq![card]))).count(v));
            assert(slot_cards_of(t[i]) =~= Multiset::empty());
        }
    } else {
        lemma_sum_push(t, Some(seq![card]), |o: Option<Seq<Card>>| slot_cards_of(o));
    }
    assert(table_cards(table_open(t, card)) =~= table_cards(t).insert(card));
}

/// Playing a card taken from board `p` (now `b`) onto a scale keeps every card.
proof fn lemma_play_onto_cards(m: GameModel, p: int, b: BoardModel, s: ScaleIdx, card: Card)
    requires
        0 <= p < m.players.len(),
        s.0 < m.table.len(),
        m.table[s.0 as int] is Some,
        board_cards(b).insert(card) == board_cards(m.players[p]),
    ensures
        all_cards(play_onto(m, p, b, s, card).0) == all_cards(m),
{
    let t2 = table_place(m.table, s, card);
    let disc = place_discards(m.table, s, card);
    let succ = MoveSuccess::ScalePlaced { scale_id: s, completed: placed_run(m.table, s, card).len() == SCALE_LEN };
    lemma_finish_play_cards(m, p, b, t2, disc, succ);
    lemma_table_place_cards(m.table, s, card);
    let r = play_onto(m, p, b, s, card).0;
    assert forall|v: Card| #[trigger] all_cards(r).count(v) == all_cards(m).count(v) by {
        assert(all_cards(r).add(board_cards(m.players[p])).add(table_cards(m.table)).count(v)
            == all_cards(m).add(board_cards(b)).add(opt_cards(disc).to_multiset()).add(table_cards(t2)).count(v));
        assert(table_cards(t2).add(opt_cards(disc).to_multiset()).count(v) == table_cards(m.table).insert(card).count(v));
        assert(board_cards(b).insert(card).count(v) == board_cards(m.players[p]).count(v));
    }
    assert(all_cards(r) =~= all_cards(m));
}

/// Opening a scale with a card taken from board `p` (now `b`) keeps every card.
proof fn lemma_open_with_cards(m: GameModel, p: int, b: BoardModel, card: Card)
    requires
        0 <= p < m.players.len(),
        board_cards(b).insert(card) == board_cards(m.players[p]),
    ensures
        all_cards(open_with(m, p, b, card).0) == all_cards(m),
{
    let t2 = table_open(m.table, card);
    let succ = MoveSuccess::ScaleOpened { scale_id: ScaleIdx(first_free_slot(m.table) as usize) };
    lemma_finish_play_cards(m, p, b, t2, None, succ);
    lemma_table_open_cards(m.table, card);
    let r = open_with(m, p, b, card).0;
    assert forall|v: Card| #[trigger] all_cards(r).count(v) == all_cards(m).count(v) by {
        assert(all_cards(r).add(board_cards(m.players[p])).add(table_cards(m.table)).count(v)
            == all_cards(m).add(board_cards(b)).add(opt_cards(None).to_multiset()).add(table_cards(t2)).count(v));
        assert(opt_cards(None).to_multiset() =~= Multiset::empty());
        assert(board_cards(b).insert(card).count(v) == board_cards(m.players[p]).count(v));
    }
    assert(all_cards(r) =~= all_cards(m));
}

/// No move creates or destroys a card: whatever a player asks for, and
/// whether it succeeds or is refused, the cards on the boards, in the two
/// piles and on the scales are, taken together, the same as before.
pub proof fn law_moves_keep_every_card(m: GameModel, player: PlayerIdx, action: Action)
    requires
        m.boards_wf(),
    ensures
        all_cards(next_move(m, player, action).0) == all_cards(m),
{
    lemma_find_player(m.players, player);
    let p = find_player(m.players, player);
    if p >= m.players.len() || m.phase != GamePhase::Playing || m.players[p].player_idx != m.current_turn.0 {
        return;
    }
    let b = m.players[p];
    match action {
        Action::Draw => {
            if m.turn_phase == TurnPhase::Draw {
                let (d, x, drawn) = draw_phase(m.draw, m.discard, b.hand);
                lemma_draw_phase_piles(m.draw, m.discard, b.hand);
                let b2 = BoardModel { hand: b.hand + drawn, ..b };
                lemma_multiset_commutative(b.hand, drawn);
                lemma_boards_update(m.players, p, b2);
                let r = next_move(m, player, action).0;
                assert forall|v: Card| #[trigger] all_cards(r).count(v) == all_cards(m).count(v) by {
                    assert(boards_cards(m.players.update(p, b2)).add(board_cards(b)).count(v)
                        == boards_cards(m.players).add(board_cards(b2)).count(v));
                    assert(board_cards(b2) =~= board_cards(b).add(drawn.to_multiset()));
                    assert(m.draw.to_multiset().add(m.discard.to_multiset()).count(v)
                        == d.to_multiset().add(x.to_multiset()).add(drawn.to_multiset()).count(v));
                }
                assert(all_cards(r) =~= all_cards(m));
            }
        },
        Action::OpenScale { hand_idx } => {
            if m.turn_phase == TurnPhase::Play && hand_idx.0 < b.hand.len() && b.hand[hand_idx.0 as int].value == 1 {
                let h = hand_idx.0 as int;
                let b1 = BoardModel { hand: b.hand.remove(h), ..b };
                lemma_hand_remove(b.hand, h);
                assert(board_cards(b1).insert(b.hand[h]) =~= board_cards(b));
                lemma_open_with_cards(m, p, b1, b.hand[h]);
            }
        },
        Action::PlayHand { hand_idx, scale_idx } => {
            if m.turn_phase == TurnPhase::Play && hand_idx.0 < b.hand.len()
                && crate::state_spec::table_fits(m.table, scale_idx, b.hand[hand_idx.0 as int]) {
                let h = hand_idx.0 as int;
                let b1 = BoardModel { hand: b.hand.remove(h), ..b };
                lemma_hand_remove(b.hand, h);
                assert(board_cards(b1).insert(b.hand[h]) =~= board_cards(b));
                lemma_play_onto_cards(m, p, b1, scale_idx, b.hand[h]);
            }
        },
        Action::PlayPersonal { scale_idx } => {
            if m.turn_phase == TurnPhase::Play && b.personal.len() > 0 {
                let card = b.personal.last();
                let b1 = BoardModel { personal: b.personal.drop_last(), ..b };
                lemma_pile_pop(b.personal);
                assert(board_cards(b1).insert(card) =~= board_cards(b));
                if card.value == 1 {
                    lemma_open_with_cards(m, p, b1, card);
                } else if crate::state_spec::table_fits(m.table, scale_idx, card) {
                    lemma_play_onto_cards(m, p, b1, scale_idx, card);
                }
            }
        },
        Action::PlaySide { stack_idx, scale_idx } => {
            if m.turn_phase == TurnPhase::Play && stack_idx.0 < SIDE_STACKS && b.sides[stack_idx.0 as int].len() > 0 {
                let st = stack_idx.0 as int;
                let card = b.sides[st].last();
                let b1 = BoardModel { sides: b.sides.update(st, b.sides[st].drop_last()), ..b };
                lemma_side_pop(b.sides, st);
                assert(board_cards(b1).insert(card) =~= board_cards(b));
                if crate::state_spec::table_fits(m.table, scale_idx, card) {
                    lemma_play_onto_cards(m, p, b1, scale_idx, card);
                } else {
                    let b2 = BoardModel { hand: b.hand.push(card), ..b1 };
                    assert(board_cards(b2) =~= board_cards(b));
                    lemma_replace_board(m, p, b2);
                }
            }
        },
        Action::MoveToSide { hand_idx, stack_idx } => {
            if m.turn_phase == TurnPhase::Play && hand_idx.0 < b.hand.len() {
                let h = hand_idx.0 as int;
                let card = b.hand[h];
                let hand = b.hand.remove(h);
                lemma_hand_remove(b.hand, h);
                if stack_idx.0 >= SIDE_STACKS {
                    let b2 = BoardModel { hand: hand.push(card), ..b };
                    assert(board_cards(b2) =~= board_cards(b));
                    lemma_replace_board(m, p, b2);
                } else {
                    let st = stack_idx.0 as int;
                    let b1 = BoardModel { hand: hand, sides: b.sides.update(st, b.sides[st].push(card)), ..b };
                    lemma_side_push(b.sides, st, card);
                    assert(board_cards(b1) =~= board_cards(b));
                    lemma_replace_board(m, p, b1);
                    let m1 = GameModel { players: m.players.update(p, b1), ..m };
                    assert(all_cards(next_move(m, player, action).0) =~= all_cards(m1));
                }
            }
        },
        Action::MovePersonalToSide { stack_idx } => {
            if m.turn_phase == TurnPhase::Play && b.personal.len() > 0 && b.personal.last().value == 13
                && stack_idx.0 < SIDE_STACKS {
                let st = stack_idx.0 as int;
                let card = b.personal.last();
                let b1 = BoardModel {
                    personal: b.personal.drop_last(),
                    sides: b.sides.update(st, b.sides[st].push(card)),
                    ..b
                };
                lemma_pile_pop(b.personal);
                lemma_side_push(b.sides, st, card);
                assert(board_cards(b1) =~= board_cards(b));
                lemma_finish_play_cards(m, p, b1, m.table, None, MoveSuccess::Success);
                let r = next_move(m, player, action).0;
                assert forall|v: Card| #[trigger] all_cards(r).count(v) == all_cards(m).count(v) by {
                    assert(all_cards(r).add(board_cards(b)).add(table_cards(m.table)).count(v)
                        == all_cards(m).add(board_cards(b1)).add(opt_cards(None).to_multiset()).add(table_cards(m.table)).count(v));
                    assert(opt_cards(None).to_multiset() =~= Multiset::empty());
                }
                assert(all_cards(r) =~= all_cards(m));
            }
        },
    }
}

/// Only the player on turn in a running game can move: anyone else (or
/// anyone, once the game is not running) is refused and nothing changes.
pub proof fn law_only_the_player_on_turn_moves(m: GameModel, player: PlayerIdx, action: Action)
    requires
        ({
            let p = find_player(m.players, player);
            p >= m.players.len() || m.phase != GamePhase::Playing || m.players[p].player_idx != m.current_turn.0
        }),
    ensures
        next_move(m, player, action).0 == m,
        next_move(m, player, action).1 is Refused,
{
}

/// A refused move never touches the table, the piles, the phase or the
/// turn (at most a card moves on the mover's own board).
pub proof fn law_refusals_keep_table_piles_and_turn(m: GameModel, player: PlayerIdx, action: Action)
    requires
        next_move(m, player, action).1 is Refused,
    ensures
        ({
            let r = next_move(m, player, action).0;
            &&& r.table == m.table
            &&& r.draw == m.draw
            &&& r.discard == m.discard
            &&& r.phase == m.phase
            &&& r.current_turn == m.current_turn
            &&& r.turn_phase == m.turn_phase
            &&& r.players.len() == m.players.len()
        }),
{
    lemma_find_player(m.players, player);
}

/// A move that ends the turn hands it to the next seat, at the draw.
pub proof fn law_turn_end_passes_the_turn(m: GameModel, player: PlayerIdx, action: Action)
    requires
        next_move(m, player, action).1 matches Outcome::Done(MoveSuccess::TurnEnded, _, _),
    ensures
        ({
            let r = next_move(m, player, action).0;
            &&& r.current_turn == PlayerIdx(((m.current_turn.0 + 1) % (m.players.len() as int)) as usize)
            &&& r.turn_phase == TurnPhase::Draw
            &&& r.phase == GamePhase::Playing
        }),
{
}

/// A game is won only by the mover, once their personal pile and hand are
/// both empty, and winning finishes the game.
pub proof fn law_win_needs_empty_pile_and_hand(m: GameModel, player: PlayerIdx, action: Action)
    requires
        next_move(m, player, action).1 matches Outcome::Done(MoveSuccess::GameWon { .. }, _, _),
    ensures
        ({
            let r = next_move(m, player, action).0;
            let p = find_player(m.players, player);
            &&& next_move(m, player, action).1 == Outcome::Done(MoveSuccess::GameWon { winner_idx: player }, None, None)
            &&& r.phase == GamePhase::Finished
            &&& r.players[p].personal.len() == 0
            &&& r.players[p].hand.len() == 0
        }),
{
    lemma_find_player(m.players, player);
    let p = find_player(m.players, player);
    match action {
        Action::MoveToSide { hand_idx, stack_idx } => {
            let b = m.players[p];
            let hand = b.hand.remove(hand_idx.0 as int);
            let st = stack_idx.0 as int;
            let b1 = BoardModel { hand: hand, sides: b.sides.update(st, b.sides[st].push(b.hand[hand_idx.0 as int])), ..b };
            assert(m.players.update(p, b1)[p] == b1);
        },
        _ => {},
    }
}

/// Any other successful move leaves the turn with the mover, in the play
/// half of the turn, with the game still running.
pub proof fn law_other_moves_keep_the_turn(m: GameModel, player: PlayerIdx, action: Action)
    requires
        next_move(m, player, action).1 matches Outcome::Done(s, _, _) && !(s is TurnEnded) && !(s is GameWon),
    ensures
        ({
            let r = next_move(m, player, action).0;
            &&& r.current_turn == m.current_turn
            &&& r.turn_phase == TurnPhase::Play
            &&& r.phase == GamePhase::Playing
        }),
{
}

/// A player draws once per turn: right after a successful draw, a second
/// draw is refused.
pub proof fn law_one_draw_per_turn(m: GameModel, player: PlayerIdx)
    requires
        next_move(m, player, Action::Draw).1 is Done,
    ensures
        next_move(next_move(m, player, Action::Draw).0, player, Action::Draw).1 == Outcome::Refused(Refusal::NotAllowed),
{
    let r = next_move(m, player, Action::Draw).0;
    lemma_find_player(m.players, player);
    lemma_find_player(r.players, player);
    let p = find_player(m.players, player);
    assert(r.players.len() == m.players.len());
    assert forall|j: int| 0 <= j < r.players.len() implies (#[trigger] r.players[j]).player_idx == m.players[j].player_idx by {}
    assert(find_player(r.players, player) == p) by {
        let q = find_player(r.players, player);
        if q < p {
            assert(r.players[q].player_idx == m.players[q].player_idx);
        }
        if p < q {
            assert(r.players[p].player_idx == m.players[p].player_idx);
        }
    }
}
/// No move adds, removes or reseats a board, and the turn stays on a board:
/// after any move the seat on turn is still a position among the boards,
/// and a game that was running is still running unless the move won it.
pub proof fn law_moves_keep_the_seats(m: GameModel, player: PlayerIdx, action: Action)
    requires
        m.current_turn.0 < m.players.len(),
    ensures
        ({
            let (r, out) = next_move(m, player, action);
            &&& r.players.len() == m.players.len()
            &&& forall|j: int| 0 <= j < m.players.len() ==> (#[trigger] r.players[j]).player_idx == m.players[j].player_idx
            &&& r.current_turn.0 < r.players.len()
            &&& m.phase == GamePhase::Playing && !(out matches Outcome::Done(MoveSuccess::GameWon { .. }, _, _))
                ==> r.phase == GamePhase::Playing
        }),
{
    lemma_find_player(m.players, player);
    let p = find_player(m.players, player);
    let r = next_move(m, player, action).0;
    if p >= m.players.len() || m.phase != GamePhase::Playing || m.players[p].player_idx != m.current_turn.0 {
        return;
    }
    assert forall|j: int| 0 <= j < m.players.len() implies (#[trigger] r.players[j]).player_idx == m.players[j].player_idx by {
        if j != p {
            assert(r.players[j] == m.players[j]);
        }
    }
}

/// The draw at the start of a turn takes one card, then more until the
/// hand holds five: as many as `max(1, 5 - hand)` cards, or all the two
/// piles hold when that is fewer; no card is created or lost.
pub proof fn law_draw_phase_count(draw: Seq<Card>, discard: Seq<Card>, hand: Seq<Card>)
    ensures
        ({
            let (d, x, cs) = draw_phase(draw, discard, hand);
            let total = draw.len() + discard.len();
            let want = if hand.len() + 1 < NORMAL_HAND_SIZE { NORMAL_HAND_SIZE - hand.len() } else { 1int };
            &&& cs.len() == (if total < want { total as int } else { want })
            &&& d.len() + x.len() == total - cs.len()
            &&& (draw + discard).to_multiset() == (d + x).to_multiset().add(cs.to_multiset())
        }),
{
    broadcast use vstd::seq_lib::group_to_multiset_ensures;
    broadcast use vstd::multiset::group_multiset_axioms;
    lemma_draw_step_count(draw, discard);
    lemma_draw_step_keeps_cards(draw, discard);
    let (d1, x1, c) = draw_step(draw, discard);
    let first = match c {
        Some(card) => seq![card],
        None => Seq::<Card>::empty(),
    };
    let n = missing_cards(hand.len() + first.len());
    law_draws_take_what_is_there(d1, x1, n);
    let (d2, x2, rest) = draw_steps(d1, x1, n);
    lemma_multiset_commutative(first, rest);
    match c {
        Some(card) => {
            assert(first.to_multiset() =~= Multiset::<Card>::empty().insert(card));
        },
        None => {
            assert(first.to_multiset() =~= Multiset::<Card>::empty());
        },
    }
    assert((d1 + x1).to_multiset().add(first.to_multiset()) =~= (d2 + x2).to_multiset().add(rest.to_multiset()).add(
        first.to_multiset(),
    ));
    assert((first + rest).to_multiset() =~= (d2 + x2).to_multiset().add(rest.to_multiset()).add(first.to_multiset()).sub(
        (d2 + x2).to_multiset(),
    ));
}

/// After a play, an empty hand is refilled with five cards, or all the two
/// piles hold when that is fewer; a hand that still holds cards gets none.
pub proof fn law_refill_count(draw: Seq<Card>, discard: Seq<Card>, hand: Seq<Card>)
    ensures
        ({
            let (d, x, cs) = refill(draw, discard, hand);
            let total = draw.len() + discard.len();
            &&& hand.len() == 0 ==> cs.len() == (if total < NORMAL_HAND_SIZE { total as int } else { NORMAL_HAND_SIZE as int })
            &&& hand.len() > 0 ==> d == draw && x == discard && cs == Seq::<Card>::empty()
            &&& (draw + discard).to_multiset() == (d + x).to_multiset().add(cs.to_multiset())
        }),
{
    broadcast use vstd::multiset::group_multiset_axioms;
    law_draws_take_what_is_there(draw, discard, NORMAL_HAND_SIZE as nat);
    if hand.len() > 0 {
        assert(Seq::<Card>::empty().to_multiset() =~= Multiset::<Card>::empty()) by {
            broadcast use vstd::seq_lib::group_to_multiset_ensures;
        }
        assert((draw + discard).to_multiset().add(Multiset::<Card>::empty()) =~= (draw + discard).to_multiset());
    }
}

} // verus!

verus! {

/// A player on turn, in the play half of the turn, whose personal pile has
/// an Ace on top can always play it, whatever slot the move names: the move
/// succeeds with `ScaleOpened`, the Ace leaves the personal pile and stands
/// alone as a new scale in the first empty slot (a new slot at the end when
/// none is empty), and every other slot is left as it was. (The row of
/// slots is held in memory, so its length is below `usize::MAX`.)
pub proof fn law_personal_ace_opens_a_scale(m: GameModel, player: PlayerIdx, p: int, scale_idx: ScaleIdx)
    requires
        m.phase == GamePhase::Playing,
        m.turn_phase == TurnPhase::Play,
        0 <= p < m.players.len(),
        m.players[p].player_idx == player.0,
        forall|j: int| 0 <= j < p ==> (#[trigger] m.players[j]).player_idx != player.0,
        m.players[p].player_idx == m.current_turn.0,
        m.players[p].personal.len() > 0,
        m.players[p].personal.last().value == 1,
        m.table.len() < usize::MAX,
    ensures
        ({
            let ace = m.players[p].personal.last();
            let (r, out) = next_move(m, player, Action::PlayPersonal { scale_idx });
            &&& out matches Outcome::Done(MoveSuccess::ScaleOpened { scale_id }, _, None)
                && scale_id.0 <= m.table.len()
                && (forall|j: int| 0 <= j < scale_id.0 ==> (#[trigger] m.table[j]) is Some)
                && (scale_id.0 < m.table.len() ==> m.table[scale_id.0 as int] is None)
                && r.table.len() == (if scale_id.0 < m.table.len() { m.table.len() as int } else { m.table.len() + 1int })
                && r.table[scale_id.0 as int] == Some(seq![ace])
                && (forall|j: int| 0 <= j < m.table.len() && j != scale_id.0 ==> #[trigger] r.table[j] == m.table[j])
            &&& r.players[p].personal == m.players[p].personal.drop_last()
        }),
{
    lemma_find_player(m.players, player);
    assert(find_player(m.players, player) == p) by {
        let q = find_player(m.players, player);
        if q < p {
            assert(m.players[q].player_idx != player.0);
        }
        if p < q {
            assert(m.players[p].player_idx != player.0);
        }
    }
    lemma_first_free_slot(m.table);
}

/// Likewise an Ace in the hand of the player on turn, in the play half of
/// the turn, always opens a scale: the move succeeds with `ScaleOpened`,
/// the Ace leaves the hand (the other cards keep their order, ahead of any
/// refill) and stands alone in the first empty slot, or a new slot at the
/// end when none is empty; the personal pile is untouched.
pub proof fn law_hand_ace_opens_a_scale(m: GameModel, player: PlayerIdx, p: int, hand_idx: HandIdx)
    requires
        m.phase == GamePhase::Playing,
        m.turn_phase == TurnPhase::Play,
        0 <= p < m.players.len(),
        m.players[p].player_idx == player.0,
        forall|j: int| 0 <= j < p ==> (#[trigger] m.players[j]).player_idx != player.0,
        m.players[p].player_idx == m.current_turn.0,
        hand_idx.0 < m.players[p].hand.len(),
        m.players[p].hand[hand_idx.0 as int].value == 1,
        m.table.len() < usize::MAX,
    ensures
        ({
            let hand = m.players[p].hand;
            let ace = hand[hand_idx.0 as int];
            let (r, out) = next_move(m, player, Action::OpenScale { hand_idx });
            &&& out matches Outcome::Done(MoveSuccess::ScaleOpened { scale_id }, _, None)
                && scale_id.0 <= m.table.len()
                && (forall|j: int| 0 <= j < scale_id.0 ==> (#[trigger] m.table[j]) is Some)
                && (scale_id.0 < m.table.len() ==> m.table[scale_id.0 as int] is None)
                && r.table.len() == (if scale_id.0 < m.table.len() { m.table.len() as int } else { m.table.len() + 1int })
                && r.table[scale_id.0 as int] == Some(seq![ace])
                && (forall|j: int| 0 <= j < m.table.len() && j != scale_id.0 ==> #[trigger] r.table[j] == m.table[j])
            &&& r.players[p].hand.len() >= hand.len() - 1
            &&& r.players[p].hand.subrange(0, hand.len() - 1) == hand.remove(hand_idx.0 as int)
            &&& r.players[p].personal == m.players[p].personal
        }),
{
    lemma_find_player(m.players, player);
    assert(find_player(m.players, player) == p) by {
        let q = find_player(m.players, player);
        if q < p {
            assert(m.players[q].player_idx != player.0);
        }
        if p < q {
            assert(m.players[p].player_idx != player.0);
        }
    }
    lemma_first_free_slot(m.table);
    let hand = m.players[p].hand;
    let rest = hand.remove(hand_idx.0 as int);
    let r = next_move(m, player, Action::OpenScale { hand_idx }).0;
    let drawn = refill(m.draw, m.discard, rest).2;
    assert(r.players[p].hand == rest + drawn);
    assert((rest + drawn).subrange(0, rest.len() as int) =~= rest);
}

/// When a play onto a scale reports the scale completed, that scale has
/// left the table: its slot is empty afterwards, the move hands back the
/// completed run (the old scale with the played card on top, a full run),
/// and those cards went onto the discard pile. When the mover's hand still
/// holds cards nothing is drawn, and the discard pile is the old one with
/// the run on top; otherwise the refill draws from the piles with the run
/// already among them, and no card of theirs is lost.
pub proof fn law_completed_scale_leaves_the_table(
    m: GameModel,
    player: PlayerIdx,
    action: Action,
    s: ScaleIdx,
    drawn: Option<Seq<Card>>,
    disc: Option<Seq<Card>>,
)
    requires
        next_move(m, player, action).1 == Outcome::Done(MoveSuccess::ScalePlaced { scale_id: s, completed: true }, drawn, disc),
    ensures
        ({
            let r = next_move(m, player, action).0;
            &&& s.0 < m.table.len()
            &&& m.table[s.0 as int] is Some
            &&& r.table.len() == m.table.len()
            &&& r.table[s.0 as int] is None
            &&& forall|j: int| 0 <= j < m.table.len() && j != s.0 ==> #[trigger] r.table[j] == m.table[j]
            &&& disc matches Some(run) && run.len() == SCALE_LEN && run.drop_last() == m.table[s.0 as int]->0
                && (drawn matches Some(ds)
                    && (r.draw + r.discard).to_multiset().add(ds.to_multiset()) == (m.draw + m.discard + run).to_multiset()
                    && (ds.len() == 0 ==> r.draw == m.draw && r.discard == m.discard + run))
        }),
{
    lemma_find_player(m.players, player);
    let p = find_player(m.players, player);
    let b = m.players[p];
    match action {
        Action::PlayHand { hand_idx, scale_idx } => {
            let card = b.hand[hand_idx.0 as int];
            lemma_completed_play(m, p, BoardModel { hand: b.hand.remove(hand_idx.0 as int), ..b }, scale_idx, card);
        },
        Action::PlayPersonal { scale_idx } => {
            let card = b.personal.last();
            lemma_completed_play(m, p, BoardModel { personal: b.personal.drop_last(), ..b }, scale_idx, card);
        },
        Action::PlaySide { stack_idx, scale_idx } => {
            let st = stack_idx.0 as int;
            let card = b.sides[st].last();
            lemma_completed_play(m, p, BoardModel { sides: b.sides.update(st, b.sides[st].drop_last()), ..b }, scale_idx, card);
        },
        _ => {},
    }
}

/// A play onto a scale that does not complete it leaves the card on top of
/// that scale: the scale is the old one with one more card, which follows
/// on the old top (the next value, or a King as a joker), nothing is
/// discarded, and every other slot is left as it was. A play reports
/// completion exactly when the scale reaches its full length.
pub proof fn law_placed_card_tops_the_scale(
    m: GameModel,
    player: PlayerIdx,
    action: Action,
    s: ScaleIdx,
    completed: bool,
    drawn: Option<Seq<Card>>,
    disc: Option<Seq<Card>>,
)
    requires
        next_move(m, player, action).1 == Outcome::Done(MoveSuccess::ScalePlaced { scale_id: s, completed }, drawn, disc),
    ensures
        ({
            let r = next_move(m, player, action).0;
            &&& s.0 < m.table.len()
            &&& m.table[s.0 as int] matches Some(old_run)
                && completed == (old_run.len() + 1 == SCALE_LEN)
                && (!completed ==> disc is None && (r.table[s.0 as int] matches Some(run)
                    && run.len() == old_run.len() + 1 && run.drop_last() == old_run
                    && (run.last().value == old_run.len() + 1 || run.last().value == 13)))
            &&& r.table.len() == m.table.len()
            &&& forall|j: int| 0 <= j < m.table.len() && j != s.0 ==> #[trigger] r.table[j] == m.table[j]
        }),
{
    lemma_find_player(m.players, player);
    let r = next_move(m, player, action).0;
    assert(m.table[s.0 as int] is Some);
    let old_run = m.table[s.0 as int]->0;
    if !completed {
        let run = r.table[s.0 as int]->0;
        assert(run.drop_last() =~= old_run);
    }
}

proof fn lemma_completed_play(m: GameModel, p: int, b: BoardModel, s: ScaleIdx, card: Card)
    requires
        0 <= p < m.players.len(),
        crate::state_spec::table_fits(m.table, s, card),
        placed_run(m.table, s, card).len() == SCALE_LEN,
    ensures
        ({
            let (r, out) = play_onto(m, p, b, s, card);
            let run = placed_run(m.table, s, card);
            &&& out matches Outcome::Done(_, Some(ds), Some(run2))
            &&& run2 == run
            &&& r.table == m.table.update(s.0 as int, None)
            &&& run.drop_last() == m.table[s.0 as int]->0
            &&& (r.draw + r.discard).to_multiset().add(ds.to_multiset()) == (m.draw + m.discard + run).to_multiset()
            &&& ds.len() == 0 ==> r.draw == m.draw && r.discard == m.discard + run
        }),
{
    let run = placed_run(m.table, s, card);
    let x = m.discard + run;
    let (d, x2, ds) = refill(m.draw, x, b.hand);
    lemma_refill_piles(m.draw, x, b.hand);
    law_refill_count(m.draw, x, b.hand);
    lemma_piles(m.draw, x);
    lemma_piles(d, x2);
    assert(m.draw + m.discard + run =~= m.draw + x);
    assert(run.drop_last() =~= m.table[s.0 as int]->0);
}

} // verus!
