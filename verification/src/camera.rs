//! The movements that the camera can be asked for.

use vstd::prelude::*;

verus! {

/// The movements asked of the camera, one flag for each.
#[derive(Clone, Copy, Debug, PartialEq, Eq, Structural)]
pub struct Movement {
    pub strafe_forward: bool,
    pub strafe_back: bool,
    pub strafe_left: bool,
    pub strafe_right: bool,
    pub pitch_up: bool,
    pub pitch_down: bool,
    pub yaw_left: bool,
    pub yaw_right: bool,
}

/// The keys that the camera listens to, and one value for all the others.
#[derive(Clone, Copy, Debug, PartialEq, Eq, Structural)]
pub enum Key {
    W,
    A,
    S,
    D,
    Other,
}

impl Movement {
    /// No movement at all.
    pub open spec fn spec_none() -> Movement {
        Movement {
            strafe_forward: false,
            strafe_back: false,
            strafe_left: false,
            strafe_right: false,
            pitch_up: false,
            pitch_down: false,
            yaw_left: false,
            yaw_right: false,
        }
    }

    /// The movement that a key asks for.
    pub open spec fn spec_from_key(key: Key) -> Movement {
        Movement {
            strafe_forward: key == Key::W,
            strafe_back: key == Key::S,
            strafe_left: key == Key::A,
            strafe_right: key == Key::D,
            pitch_up: false,
            pitch_down: false,
            yaw_left: false,
            yaw_right: false,
        }
    }

    /// Whether any movement is asked for.
    pub fn any_movement(&self) -> (r: bool)
        ensures
            r == (*self != Self::spec_none()),
    {
        self.strafe_forward || self.strafe_back || self.strafe_left || self.strafe_right
            || self.pitch_up || self.pitch_down || self.yaw_left || self.yaw_right
    }

    /// The movement that a key asks for: `W` forward, `S` back, `A` left,
    /// `D` right, and none for any other key.
    pub fn from_key(key: Key) -> (r: Movement)
        ensures
            r == Self::spec_from_key(key),
    {
        let mut movement = Movement::default();
        match key {
            Key::W => {
                movement.strafe_forward = true;
            },
            Key::S => {
                movement.strafe_back = true;
            },
            Key::A => {
                movement.strafe_left = true;
            },
            Key::D => {
                movement.strafe_right = true;
            },
            Key::Other => (),
        }
        movement
    }
}

impl Default for Movement {
    /// No movement at all.
    fn default() -> (r: Self)
        ensures
            r == Movement::spec_none(),
    {
        Self {
            strafe_forward: false,
            strafe_back: false,
            strafe_left: false,
            strafe_right: false,
            pitch_up: false,
            pitch_down: false,
            yaw_left: false,
            yaw_right: false,
        }
    }
}

} // verus!
