use topo::actions::{MoveError, MoveSuccess};
use topo::card::{Card, DeckColor, Suit};
use topo::ids::ScaleIdx;
use topo::scale_manager::ScaleManager;

fn card(value: u8) -> Card {
    Card {
        suit: Suit::Hearts,
        value,
        deck: DeckColor::Red,
    }
}

fn cards_at(mgr: &ScaleManager, i: usize) -> &Vec<Card> {
    &mgr.scales[i].as_ref().unwrap().cards
}

#[test]
fn open_scale_with_ace_succeeds() {
    let mut mgr = ScaleManager::new();
    let result = mgr.open_scale(card(1));
    assert_eq!(result, Ok(MoveSuccess::ScaleOpened { scale_id: ScaleIdx(0) }));
    assert_eq!(mgr.scales.len(), 1);
    assert_eq!(cards_at(&mgr, 0).len(), 1);
    assert_eq!(cards_at(&mgr, 0)[0].value, 1);
}

#[test]
fn open_scale_with_non_ace_fails() {
    let mut mgr = ScaleManager::new();
    assert_eq!(mgr.open_scale(card(5)), Err(MoveError::DoesNotFit));
    assert!(mgr.scales.is_empty());
}

#[test]
fn open_multiple_scales_increments_ids() {
    let mut mgr = ScaleManager::new();
    assert_eq!(mgr.open_scale(card(1)), Ok(MoveSuccess::ScaleOpened { scale_id: ScaleIdx(0) }));
    assert_eq!(mgr.open_scale(card(1)), Ok(MoveSuccess::ScaleOpened { scale_id: ScaleIdx(1) }));
    assert_eq!(mgr.open_scale(card(1)), Ok(MoveSuccess::ScaleOpened { scale_id: ScaleIdx(2) }));
    assert_eq!(mgr.scales.len(), 3);
}

#[test]
fn place_on_valid_scale_succeeds() {
    let mut mgr = ScaleManager::new();
    let _ = mgr.open_scale(card(1));
    let result = mgr.place_on_scale(ScaleIdx(0), card(2));
    assert_eq!(result, Ok(MoveSuccess::ScalePlaced { scale_id: ScaleIdx(0), completed: false }));
    assert_eq!(cards_at(&mgr, 0).len(), 2);
    assert_eq!(cards_at(&mgr, 0)[1].value, 2);
}

#[test]
fn place_on_nonexistent_scale_fails() {
    let mut mgr = ScaleManager::new();
    assert_eq!(mgr.place_on_scale(ScaleIdx(0), card(2)), Err(MoveError::DoesNotFit));
    assert!(mgr.scales.is_empty());
}

#[test]
fn place_invalid_card_fails() {
    let mut mgr = ScaleManager::new();
    let _ = mgr.open_scale(card(1));
    assert_eq!(mgr.place_on_scale(ScaleIdx(0), card(5)), Err(MoveError::DoesNotFit));
    assert_eq!(cards_at(&mgr, 0).len(), 1);
}

#[test]
fn place_on_correct_scale_among_many() {
    let mut mgr = ScaleManager::new();
    let _ = mgr.open_scale(card(1));
    let _ = mgr.open_scale(card(1));
    let result = mgr.place_on_scale(ScaleIdx(1), card(2));
    assert_eq!(result, Ok(MoveSuccess::ScalePlaced { scale_id: ScaleIdx(1), completed: false }));
    assert_eq!(cards_at(&mgr, 0).len(), 1);
    assert_eq!(cards_at(&mgr, 1).len(), 2);
}

#[test]
fn place_completes_scale_and_flags_completion() {
    let mut mgr = ScaleManager::new();
    let _ = mgr.open_scale(card(1));
    for v in 2..=11 {
        assert_eq!(
            mgr.place_on_scale(ScaleIdx(0), card(v)),
            Ok(MoveSuccess::ScalePlaced { scale_id: ScaleIdx(0), completed: false })
        );
    }
    let result = mgr.place_on_scale(ScaleIdx(0), card(12));
    assert_eq!(result, Ok(MoveSuccess::ScalePlaced { scale_id: ScaleIdx(0), completed: true }));
    assert!(mgr.scales[0].as_ref().unwrap().is_complete());
}

#[test]
fn place_on_completed_scale_fails() {
    let mut mgr = ScaleManager::new();
    let _ = mgr.open_scale(card(1));
    for v in 2..=12 {
        let _ = mgr.place_on_scale(ScaleIdx(0), card(v));
    }
    assert!(mgr.scales[0].as_ref().unwrap().is_complete());
    assert_eq!(mgr.place_on_scale(ScaleIdx(0), card(1)), Err(MoveError::DoesNotFit));
    assert_eq!(mgr.place_on_scale(ScaleIdx(0), card(5)), Err(MoveError::DoesNotFit));
}

#[test]
fn king_wildcard_placed_on_non_empty_scale() {
    let mut mgr = ScaleManager::new();
    let _ = mgr.open_scale(card(1));
    let _ = mgr.place_on_scale(ScaleIdx(0), card(2));
    let result = mgr.place_on_scale(ScaleIdx(0), card(13));
    assert_eq!(result, Ok(MoveSuccess::ScalePlaced { scale_id: ScaleIdx(0), completed: false }));
    assert_eq!(
        mgr.place_on_scale(ScaleIdx(0), card(4)),
        Ok(MoveSuccess::ScalePlaced { scale_id: ScaleIdx(0), completed: false })
    );
}

#[test]
fn king_after_ace_allowed() {
    let mut mgr = ScaleManager::new();
    let _ = mgr.open_scale(card(1));
    let result = mgr.place_on_scale(ScaleIdx(0), card(13));
    assert_eq!(result, Ok(MoveSuccess::ScalePlaced { scale_id: ScaleIdx(0), completed: false }));
}

#[test]
fn king_after_king_fails() {
    let mut mgr = ScaleManager::new();
    let _ = mgr.open_scale(card(1));
    let _ = mgr.place_on_scale(ScaleIdx(0), card(13));
    let result = mgr.place_on_scale(ScaleIdx(0), card(13));
    assert_eq!(result, Err(MoveError::DoesNotFit));
}

#[test]
fn king_cannot_complete_scale_if_already_queen() {
    let mut mgr = ScaleManager::new();
    let _ = mgr.open_scale(card(1));
    for v in 2..=11 {
        let _ = mgr.place_on_scale(ScaleIdx(0), card(v));
    }
    let result = mgr.place_on_scale(ScaleIdx(0), card(13));
    assert_eq!(result, Ok(MoveSuccess::ScalePlaced { scale_id: ScaleIdx(0), completed: true }));
}

#[test]
fn reset_clears_all_scales() {
    let mut mgr = ScaleManager::new();
    let _ = mgr.open_scale(card(1));
    let _ = mgr.open_scale(card(1));
    assert_eq!(mgr.scales.len(), 2);
    mgr.reset();
    assert!(mgr.scales.is_empty());
}

#[test]
fn open_scale_reuses_the_first_empty_slot() {
    let mut mgr = ScaleManager::with_empty_slots(3);
    assert_eq!(mgr.open_scale(card(1)), Ok(MoveSuccess::ScaleOpened { scale_id: ScaleIdx(0) }));
    assert_eq!(mgr.open_scale(card(1)), Ok(MoveSuccess::ScaleOpened { scale_id: ScaleIdx(1) }));
    assert_eq!(mgr.scales.len(), 3);
    assert!(mgr.scales[2].is_none());
}

#[test]
fn take_completed_clears_only_a_full_scale() {
    let mut mgr = ScaleManager::new();
    let _ = mgr.open_scale(card(1));
    assert!(mgr.take_completed(ScaleIdx(0)).is_none());
    for v in 2..=12 {
        let _ = mgr.place_on_scale(ScaleIdx(0), card(v));
    }
    let taken = mgr.take_completed(ScaleIdx(0)).unwrap();
    assert_eq!(taken.len(), 12);
    assert!(mgr.scales[0].is_none());
    assert_eq!(mgr.open_scale(card(1)), Ok(MoveSuccess::ScaleOpened { scale_id: ScaleIdx(0) }));
}

#[test]
fn can_place_on_scale_matches_place() {
    let mut mgr = ScaleManager::with_empty_slots(2);
    assert!(!mgr.can_place_on_scale(ScaleIdx(0), &card(1)));
    let _ = mgr.open_scale(card(1));
    assert!(mgr.can_place_on_scale(ScaleIdx(0), &card(2)));
    assert!(!mgr.can_place_on_scale(ScaleIdx(0), &card(3)));
    assert!(!mgr.can_place_on_scale(ScaleIdx(5), &card(2)));
}
