use topo::actions::{MoveError, MoveSuccess};
use topo::card::{Card, DeckColor, Suit};
use topo::game::result::PlayResult;
use topo::game::scale::Scale as FirstRulesScale;
use topo::ids::ScaleIdx;
use topo::scale::Scale;

fn card(value: u8) -> Card {
    Card {
        suit: Suit::Hearts,
        value,
        deck: DeckColor::Red,
    }
}

fn placed(r: Result<MoveSuccess, MoveError>) -> bool {
    matches!(r, Ok(MoveSuccess::ScalePlaced { .. }))
}

fn first_rules_placed(r: PlayResult) -> bool {
    matches!(r, PlayResult::Placed { .. })
}

#[test]
fn scale_cannot_start_with_king() {
    let mut scale = Scale::new(ScaleIdx(0));
    assert!(matches!(scale.push(card(13)), Err(MoveError::DoesNotFit)));

    let mut scale = FirstRulesScale::new(0);
    assert!(matches!(scale.push(card(13)), PlayResult::DoesNotFit));
}

#[test]
fn scale_accepts_normal_sequence() {
    let mut scale = Scale::new(ScaleIdx(0));
    assert!(placed(scale.push(card(1))));
    assert!(placed(scale.push(card(2))));
    assert!(placed(scale.push(card(3))));
    assert!(placed(scale.push(card(4))));

    let mut scale = FirstRulesScale::new(0);
    assert!(first_rules_placed(scale.push(card(1))));
    assert!(first_rules_placed(scale.push(card(2))));
    assert!(first_rules_placed(scale.push(card(3))));
}

#[test]
fn scale_king_replaces_missing_value() {
    let mut scale = Scale::new(ScaleIdx(0));
    assert!(placed(scale.push(card(1))));
    assert!(placed(scale.push(card(2))));
    assert!(placed(scale.push(card(13))));
    assert!(placed(scale.push(card(4))));

    let mut scale = FirstRulesScale::new(0);
    assert!(first_rules_placed(scale.push(card(1))));
    assert!(first_rules_placed(scale.push(card(2))));
    assert!(first_rules_placed(scale.push(card(13))));
    assert!(first_rules_placed(scale.push(card(4))));
}

#[test]
fn scale_cannot_stack_kings() {
    let mut scale = Scale::new(ScaleIdx(0));
    assert!(placed(scale.push(card(1))));
    assert!(placed(scale.push(card(13))));
    assert!(matches!(scale.push(card(13)), Err(MoveError::DoesNotFit)));

    let mut scale = FirstRulesScale::new(0);
    assert!(first_rules_placed(scale.push(card(1))));
    assert!(first_rules_placed(scale.push(card(13))));
    assert!(matches!(scale.push(card(13)), PlayResult::DoesNotFit));
}

#[test]
fn scale_rejects_wrong_value() {
    let mut scale = Scale::new(ScaleIdx(0));
    assert!(placed(scale.push(card(1))));
    assert!(placed(scale.push(card(2))));
    assert!(matches!(scale.push(card(5)), Err(MoveError::DoesNotFit)));

    let mut scale = FirstRulesScale::new(0);
    assert!(first_rules_placed(scale.push(card(1))));
    assert!(first_rules_placed(scale.push(card(2))));
    assert!(matches!(scale.push(card(5)), PlayResult::DoesNotFit));
}

#[test]
fn scale_full_example_valid() {
    let sequence = vec![1, 2, 13, 4, 5, 6, 7, 13, 9, 10, 11, 13];

    let mut scale = Scale::new(ScaleIdx(0));
    for &v in &sequence {
        assert!(placed(scale.push(card(v))), "Failed at value {}", v);
    }
    assert!(scale.is_complete());

    let mut scale = FirstRulesScale::new(0);
    for &v in &sequence {
        assert!(first_rules_placed(scale.push(card(v))), "Failed at value {}", v);
    }
    assert!(scale.is_complete());
}

#[test]
fn scale_second_example_valid() {
    let sequence = vec![1, 2, 3, 4, 13, 6, 13, 8, 9, 13, 11, 12];

    let mut scale = Scale::new(ScaleIdx(0));
    for &v in &sequence {
        assert!(placed(scale.push(card(v))), "Failed at value {}", v);
    }
    assert!(scale.is_complete());

    let mut scale = FirstRulesScale::new(0);
    for &v in &sequence {
        assert!(first_rules_placed(scale.push(card(v))), "Failed at value {}", v);
    }
    assert!(scale.is_complete());
}

#[test]
fn scale_completion_flag_is_true_on_last_card() {
    let mut scale = Scale::new(ScaleIdx(0));
    for v in 1..=11 {
        match scale.push(card(v)) {
            Ok(MoveSuccess::ScalePlaced { completed: false, .. }) => {}
            other => panic!("Unexpected result before completion: {:?}", other),
        }
    }
    match scale.push(card(12)) {
        Ok(MoveSuccess::ScalePlaced { completed: true, .. }) => {}
        _ => panic!("Expected completion on last card"),
    }

    let mut scale = FirstRulesScale::new(0);
    for v in 1..=11 {
        scale.push(card(v));
    }
    match scale.push(card(12)) {
        PlayResult::Placed { completed: true, .. } => {}
        _ => panic!("Expected completion on last card"),
    }
}

#[test]
fn king_can_complete_scale() {
    let mut scale = Scale::new(ScaleIdx(0));
    for v in 1..=11 {
        let _ = scale.push(card(v));
    }
    let result = scale.push(card(13));
    assert!(matches!(result, Ok(MoveSuccess::ScalePlaced { completed: true, .. })));
}

#[test]
fn next_value_counts_the_cards() {
    let mut scale = Scale::new(ScaleIdx(3));
    let _ = scale.push(card(1));
    let _ = scale.push(card(13));
    let mut first = FirstRulesScale::new(3);
    assert_eq!(first.next_value(), 1);
    first.push(card(1));
    first.push(card(13));
    assert_eq!(first.next_value(), 3);
    assert_eq!(scale.push(card(3)), Ok(MoveSuccess::ScalePlaced { scale_id: ScaleIdx(3), completed: false }));
}

#[test]
fn full_scale_accepts_nothing() {
    let mut scale = Scale::new(ScaleIdx(0));
    for v in 1..=12 {
        let _ = scale.push(card(v));
    }
    assert!(!scale.accepts(&card(13)));
    assert!(!scale.accepts(&card(1)));
    assert_eq!(scale.push(card(13)), Err(MoveError::DoesNotFit));
    assert_eq!(scale.cards.len(), 12);
}
