//! Which camera moves the held keys ask for in a frame.

use vstd::prelude::*;

verus! {

/// An axis the camera moves along.
#[derive(Clone, Copy, Debug, PartialEq, Eq, Structural)]
pub enum TranslateDirection {
    /// Along the view direction.
    Forward,
    /// Along the camera's right vector.
    Side,
    /// Along the camera's up vector.
    Altitude,
}

/// An angle the camera turns by.
#[derive(Clone, Copy, Debug, PartialEq, Eq, Structural)]
pub enum LookDirection {
    /// Inclination.
    Vertical,
    /// Azimuth.
    Horizontal,
}

/// The movement keys held down in a frame.
#[derive(Clone, Copy, Debug, PartialEq, Eq, Structural)]
pub struct HeldKeys {
    /// W
    pub forward: bool,
    /// S
    pub backward: bool,
    /// A
    pub left: bool,
    /// D
    pub right: bool,
    /// R
    pub rise: bool,
    /// F
    pub sink: bool,
    pub left_shift: bool,
    pub right_shift: bool,
}

/// One translation: along `direction`, against it when `reverse`.
#[derive(Clone, Copy, Debug, PartialEq, Eq, Structural)]
pub struct Step {
    pub direction: TranslateDirection,
    pub reverse: bool,
}

/// The moves of one frame: the steps to take, in order, and whether at
/// the fast speed.
#[derive(Debug)]
pub struct MovePlan {
    pub fast: bool,
    pub steps: Vec<Step>,
}

pub open spec fn step_if(held: bool, direction: TranslateDirection, reverse: bool) -> Seq<Step> {
    if held {
        seq![Step { direction, reverse }]
    } else {
        Seq::empty()
    }
}

/// W and S move forward and back, D and A right and left, R and F up and
/// down, in that order.
pub open spec fn spec_steps(k: HeldKeys) -> Seq<Step> {
    step_if(k.forward, TranslateDirection::Forward, false) + step_if(
        k.backward,
        TranslateDirection::Forward,
        true,
    ) + step_if(k.left, TranslateDirection::Side, true) + step_if(
        k.right,
        TranslateDirection::Side,
        false,
    ) + step_if(k.rise, TranslateDirection::Altitude, false) + step_if(
        k.sink,
        TranslateDirection::Altitude,
        true,
    )
}

fn push_if(steps: &mut Vec<Step>, held: bool, direction: TranslateDirection, reverse: bool)
    ensures
        final(steps)@ == old(steps)@ + step_if(held, direction, reverse),
{
    if held {
        steps.push(Step { direction, reverse });
        assert(final(steps)@ =~= old(steps)@ + step_if(held, direction, reverse));
    } else {
        assert(old(steps)@ + step_if(held, direction, reverse) =~= old(steps)@);
    }
}

/// The moves that the held keys ask for; either shift key selects the
/// fast speed.
pub fn plan_moves(keys: &HeldKeys) -> (p: MovePlan)
    ensures
        p.fast == (keys.left_shift || keys.right_shift),
        p.steps@ == spec_steps(*keys),
{
    let mut steps: Vec<Step> = Vec::new();
    push_if(&mut steps, keys.forward, TranslateDirection::Forward, false);
    push_if(&mut steps, keys.backward, TranslateDirection::Forward, true);
    push_if(&mut steps, keys.left, TranslateDirection::Side, true);
    push_if(&mut steps, keys.right, TranslateDirection::Side, false);
    push_if(&mut steps, keys.rise, TranslateDirection::Altitude, false);
    push_if(&mut steps, keys.sink, TranslateDirection::Altitude, true);
    proof {
        assert(steps@ =~= spec_steps(*keys));
    }
    MovePlan { fast: keys.left_shift || keys.right_shift, steps }
}

} // verus!
