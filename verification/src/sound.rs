//! What the world asks the loudspeaker to do.

use vstd::prelude::*;
use crate::game::CAMERA_FOV;
use crate::scalar::{lemma_mul_bounds, UNIT};
use crate::space::{distance, spec_distance, Vec2};

verus! {

/// The sounds that are played once.
#[derive(Clone, Copy, PartialEq, Eq, Structural, Debug)]
pub enum SoundKind {
    /// A player has died.
    Death,
    /// A food has been eaten up.
    Heal,
    /// A projectile has been let go.
    Shoot,
    /// A projectile that struck a player has spent itself.
    Hit,
}

/// One sound to play, and where in the world it sounds.
#[derive(Clone, Copy, PartialEq, Eq, Structural, Debug)]
pub struct SoundCue {
    pub kind: SoundKind,
    pub pos: Vec2,
}

/// How loud a sound at `pos` is for a listener at `listener`, from 0 to
/// `UNIT`: full at the listener, falling with the square of the distance,
/// and silent from twice the camera's reach on.
pub open spec fn spec_volume(pos: Vec2, listener: Vec2) -> int {
    let far = spec_distance(pos, listener) * UNIT / (2 * CAMERA_FOV);
    let loss = far * far / (UNIT as int);
    if loss >= UNIT {
        0
    } else {
        UNIT - loss
    }
}

/// How loud a sound at `pos` is for a listener at `listener`.
pub fn volume(pos: Vec2, listener: Vec2) -> (v: i64)
    ensures
        v == spec_volume(pos, listener),
        0 <= v <= UNIT,
{
    let far = distance(pos, listener) * UNIT / (2 * CAMERA_FOV);
    proof {
        lemma_mul_bounds(far as int, 2_357_023, far as int, 2_357_023);
        assert(far * far / (UNIT as int) >= 0) by (nonlinear_arith)
            requires
                far * far >= 0,
                UNIT == 1_000_000,
        ;
        assert(far * far >= 0) by (nonlinear_arith);
    }
    let loss = far * far / UNIT;
    if loss >= UNIT {
        0
    } else {
        UNIT - loss
    }
}

} // verus!
