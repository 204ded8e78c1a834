use topo::actions::Action;
use topo::ids::{HandIdx, ScaleIdx, StackIdx};

#[test]
fn debug_text_matches_the_derived_debug() {
    let actions = vec![
        Action::Draw,
        Action::OpenScale { hand_idx: HandIdx(0) },
        Action::PlayHand { hand_idx: HandIdx(4), scale_idx: ScaleIdx(7) },
        Action::PlayPersonal { scale_idx: ScaleIdx(10) },
        Action::PlaySide { stack_idx: StackIdx(3), scale_idx: ScaleIdx(123) },
        Action::MoveToSide { hand_idx: HandIdx(9), stack_idx: StackIdx(2) },
        Action::MovePersonalToSide { stack_idx: StackIdx(usize::MAX) },
    ];
    for a in actions {
        assert_eq!(a.debug_text(), format!("{:?}", a));
    }
    assert_eq!(
        Action::PlayHand { hand_idx: HandIdx(0), scale_idx: ScaleIdx(2) }.debug_text(),
        "PlayHand { hand_idx: HandIdx(0), scale_idx: ScaleIdx(2) }"
    );
}
