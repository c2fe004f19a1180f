//! The keyboard state that steers the camera: arrow keys held down set a
//! forward speed and a turning speed, and releasing them clears it.
use vstd::prelude::*;

verus! {

/// A key as the controls see it.
#[derive(Clone, Copy, Debug, PartialEq, Eq, Structural)]
pub enum Key {
    Up,
    Down,
    Left,
    Right,
    Other,
}

/// Speeds applied to the camera each frame, each -1, 0 or 1. The camera's
/// yaw decreases by `turn` degrees; it then moves `forward` units along
/// (sin yaw, 0, -cos yaw).
#[derive(Clone, Copy, Debug, PartialEq, Eq, Structural)]
pub struct Controls {
    pub forward: i8,
    pub turn: i8,
}

impl Controls {
    pub open spec fn wf(self) -> bool {
        -1 <= self.forward <= 1 && -1 <= self.turn <= 1
    }
}

/// The controls after a key goes down: Up moves with speed -1 and Down with
/// speed 1; Left turns with speed 1 and Right with speed -1.
pub open spec fn pressed(c: Controls, k: Key) -> Controls {
    match k {
        Key::Up => Controls { forward: -1i8, ..c },
        Key::Down => Controls { forward: 1, ..c },
        Key::Left => Controls { turn: 1, ..c },
        Key::Right => Controls { turn: -1i8, ..c },
        Key::Other => c,
    }
}

/// The controls after a key comes up: Up or Down stops the motion, Left or
/// Right stops the turning, whichever of the pair was held.
pub open spec fn released(c: Controls, k: Key) -> Controls {
    match k {
        Key::Up | Key::Down => Controls { forward: 0, ..c },
        Key::Left | Key::Right => Controls { turn: 0, ..c },
        Key::Other => c,
    }
}

impl Controls {
    /// At rest: no key held.
    pub fn new() -> (r: Controls)
        ensures
            r.forward == 0 && r.turn == 0,
    {
        Controls { forward: 0, turn: 0 }
    }

    pub fn press(&mut self, key: Key)
        ensures
            *final(self) == pressed(*old(self), key),
            old(self).wf() ==> final(self).wf(),
    {
        match key {
            Key::Up => self.forward = -1,
            Key::Down => self.forward = 1,
            Key::Left => self.turn = 1,
            Key::Right => self.turn = -1,
            Key::Other => {},
        }
    }

    pub fn release(&mut self, key: Key)
        ensures
            *final(self) == released(*old(self), key),
            old(self).wf() ==> final(self).wf(),
    {
        match key {
            Key::Up | Key::Down => self.forward = 0,
            Key::Left | Key::Right => self.turn = 0,
            Key::Other => {},
        }
    }
}

} // verus!
