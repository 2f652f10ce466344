//! The controller of the person at the keyboard.

use vstd::prelude::*;
use crate::player::Action;
use crate::scalar::UNIT;
use crate::space::Vec2;

verus! {

/// What the person at the keyboard and mouse is doing right now: which of
/// the four direction keys are down, whether the mouse button is down, and
/// where in the world the pointer is.
#[derive(Clone, Copy, PartialEq, Eq, Structural, Debug)]
pub struct KeyboardController {
    pub up: bool,
    pub left: bool,
    pub down: bool,
    pub right: bool,
    pub fire: bool,
    pub pointer: Vec2,
}

/// The coordinate that two opposite keys ask for.
pub open spec fn axis(forward: bool, backward: bool) -> int {
    (if forward { UNIT as int } else { 0 }) - (if backward { UNIT as int } else { 0 })
}

impl KeyboardController {
    /// The controller for the given state of keys, button and pointer.
    pub fn new(up: bool, left: bool, down: bool, right: bool, fire: bool, pointer: Vec2) -> (k:
        KeyboardController)
        ensures
            k == (KeyboardController { up, left, down, right, fire, pointer }),
    {
        KeyboardController { up, left, down, right, fire, pointer }
    }

    /// The action that the keys ask for: each direction key adds one unit
    /// along its axis, and the pointer is the aim while the button is down.
    pub open spec fn spec_act(self) -> Action {
        Action {
            target_vel: Vec2 {
                x: axis(self.right, self.left) as i64,
                y: axis(self.up, self.down) as i64,
            },
            shoot: if self.fire { Some(self.pointer) } else { None },
        }
    }

    /// The action that the keys ask for.
    pub fn act(&self) -> (action: Action)
        ensures
            action == self.spec_act(),
    {
        let mut target_vel = Vec2 { x: 0, y: 0 };
        if self.up {
            target_vel.y = target_vel.y + UNIT;
        }
        if self.left {
            target_vel.x = target_vel.x - UNIT;
        }
        if self.down {
            target_vel.y = target_vel.y - UNIT;
        }
        if self.right {
            target_vel.x = target_vel.x + UNIT;
        }
        Action { target_vel, shoot: if self.fire { Some(self.pointer) } else { None } }
    }
}

} // verus!
