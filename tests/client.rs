use scope_ui::client::{move_target, step_of, MoveDirection, OpenFlexurePosition, OpenflexureAxis, STEP};

#[test]
fn step_directions() {
    assert_eq!(step_of(MoveDirection::Pos(OpenflexureAxis::Y, 1)), (OpenflexureAxis::Y, 200));
    assert_eq!(step_of(MoveDirection::Neg(OpenflexureAxis::Z, 1)), (OpenflexureAxis::Z, -200));
    assert_eq!(STEP, 200);
}

#[test]
fn move_target_shifts_one_axis() {
    let pos = OpenFlexurePosition { x: 320, y: 3229, z: 3298 };
    assert_eq!(
        move_target(pos, OpenflexureAxis::X, -200),
        Some(OpenFlexurePosition { x: 120, y: 3229, z: 3298 })
    );
    assert_eq!(
        move_target(pos, OpenflexureAxis::Z, 200),
        Some(OpenFlexurePosition { x: 320, y: 3229, z: 3498 })
    );
}

#[test]
fn move_target_out_of_range() {
    let pos = OpenFlexurePosition { x: 0, y: i64::MAX - 10, z: 0 };
    assert_eq!(move_target(pos, OpenflexureAxis::Y, 200), None);
}
