//! Values exchanged with the stage controller, and where a step moves the
//! stage to.
use vstd::prelude::*;

verus! {

/// Distance of one step along an axis, in stage units.
pub const STEP: i64 = 200;

/// Position of the stage.
#[derive(Clone, Copy, Debug, PartialEq, Eq, Structural)]
pub struct OpenFlexurePosition {
    pub x: i64,
    pub y: i64,
    pub z: i64,
}

/// An axis of the stage.
#[derive(Clone, Copy, Debug, PartialEq, Eq, Structural)]
pub enum OpenflexureAxis {
    X,
    Y,
    Z,
}

/// A step along an axis, towards larger (`Pos`) or smaller (`Neg`)
/// coordinates.
#[derive(Clone, Copy, Debug, PartialEq, Eq, Structural)]
pub enum MoveDirection {
    Pos(OpenflexureAxis, usize),
    Neg(OpenflexureAxis, usize),
}

/// `pos` moved by `delta` along `axis`, as integers.
pub open spec fn shifted(pos: OpenFlexurePosition, axis: OpenflexureAxis, delta: int) -> (int, int, int) {
    match axis {
        OpenflexureAxis::X => (pos.x + delta, pos.y as int, pos.z as int),
        OpenflexureAxis::Y => (pos.x as int, pos.y + delta, pos.z as int),
        OpenflexureAxis::Z => (pos.x as int, pos.y as int, pos.z + delta),
    }
}

/// Axis and signed distance of one step.
pub fn step_of(direction: MoveDirection) -> (r: (OpenflexureAxis, i64))
    ensures
        direction matches MoveDirection::Pos(a, _) ==> r == (a, STEP),
        direction matches MoveDirection::Neg(a, _) ==> r.0 == a && r.1 == -STEP,
{
    match direction {
        MoveDirection::Pos(axis, _) => (axis, STEP),
        MoveDirection::Neg(axis, _) => (axis, -STEP),
    }
}

/// Absolute position to send for a move of `delta` along `axis` from `pos`;
/// `None` when the coordinate would leave the range of `i64`.
pub fn move_target(pos: OpenFlexurePosition, axis: OpenflexureAxis, delta: i64) -> (r: Option<
    OpenFlexurePosition,
>)
    ensures
        r matches Some(t) ==> (t.x as int, t.y as int, t.z as int) == shifted(pos, axis, delta as int),
        r is None ==> match axis {
            OpenflexureAxis::X => pos.x + delta < i64::MIN || pos.x + delta > i64::MAX,
            OpenflexureAxis::Y => pos.y + delta < i64::MIN || pos.y + delta > i64::MAX,
            OpenflexureAxis::Z => pos.z + delta < i64::MIN || pos.z + delta > i64::MAX,
        },
{
    match axis {
        OpenflexureAxis::X => match pos.x.checked_add(delta) {
            Some(x) => Some(OpenFlexurePosition { x, ..pos }),
            None => None,
        },
        OpenflexureAxis::Y => match pos.y.checked_add(delta) {
            Some(y) => Some(OpenFlexurePosition { y, ..pos }),
            None => None,
        },
        OpenflexureAxis::Z => match pos.z.checked_add(delta) {
            Some(z) => Some(OpenFlexurePosition { z, ..pos }),
            None => None,
        },
    }
}

} // verus!
