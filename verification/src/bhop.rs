//! Bunny hopping: the jump cadence and the strafe keys pressed in the air.

use vstd::prelude::*;

verus! {

/// Jumps in a row before the bot pauses briefly.
pub const JUMPS_BEFORE_PAUSE: u32 = 5;

/// Which way the view turned since the last tick, beyond the dead zone.
#[derive(Debug, Clone, Copy, PartialEq, Eq, Structural)]
pub enum Turn {
    /// The view angle grew: strafe left.
    Left,
    /// The view angle shrank: strafe right.
    Right,
    /// Within the dead zone.
    Straight,
}

/// What to do with the strafe keys A and D.
#[derive(Debug, Clone, Copy, PartialEq, Eq, Structural)]
pub enum StrafeKeys {
    /// Press A, release D.
    HoldA,
    /// Press D, release A.
    HoldD,
    /// Release both.
    ReleaseBoth,
    /// Leave them as they are.
    Keep,
}

/// Calls `rand::random::<i32>()`; nothing is promised of the value.
#[verifier::external_body]
fn random_i32() -> i32 {
    rand::random::<i32>()
}

/// The wheel notches scrolled for a jump, from a random number: one for an
/// even number and two for an odd one, as `random.abs() % 2 + 1` gives
/// (without its overflow at `i32::MIN`, which is even).
pub open spec fn spec_scroll_notches(random: i32) -> i32 {
    if random % 2 == 0 {
        1
    } else {
        2
    }
}

pub fn scroll_notches(random: i32) -> (r: i32)
    ensures
        r == spec_scroll_notches(random),
{
    let low: u32 = (random as u32) & 1;
    assert(low == 0 <==> random % 2 == 0) by (bit_vector)
        requires
            low == (random as u32) & 1,
    ;
    if low == 0 {
        1
    } else {
        2
    }
}

/// The notches to scroll for a jump: one or two, at random.
pub fn jump_scroll() -> (r: i32)
    ensures
        1 <= r <= 2,
{
    scroll_notches(random_i32())
}

/// The jump counter and whether the strafe keys are up.
#[derive(Debug, Clone, Copy, PartialEq, Eq, Structural)]
pub struct Bhop {
    jump_count: u32,
    keys_released: bool,
}

impl Bhop {
    pub closed spec fn jump_count(self) -> u32 {
        self.jump_count
    }

    pub closed spec fn keys_released(self) -> bool {
        self.keys_released
    }

    /// No jumps yet, keys up.
    pub fn new() -> (r: Self)
        ensures
            r.jump_count() == 0,
            r.keys_released(),
    {
        Bhop { jump_count: 0, keys_released: true }
    }

    /// Counts a jump made on the ground; every run of five jumps is followed
    /// by a pause before the next, which the result asks for.
    pub fn jump(&mut self) -> (pause: bool)
        ensures
            pause == (old(self).jump_count() >= JUMPS_BEFORE_PAUSE),
            final(self).jump_count() == (if pause {
                1
            } else {
                old(self).jump_count() + 1
            }),
            final(self).keys_released() == old(self).keys_released(),
            1 <= final(self).jump_count(),
            old(self).jump_count() <= JUMPS_BEFORE_PAUSE ==> final(self).jump_count() <= JUMPS_BEFORE_PAUSE,
    {
        let pause = self.jump_count >= JUMPS_BEFORE_PAUSE;
        if pause {
            self.jump_count = 0;
        }
        self.jump_count = self.jump_count + 1;
        pause
    }

    /// In the air with the strafe key held: strafe towards the turn.
    pub fn strafe(&mut self, turn: Turn) -> (r: StrafeKeys)
        ensures
            r == match turn {
                Turn::Left => StrafeKeys::HoldA,
                Turn::Right => StrafeKeys::HoldD,
                Turn::Straight => StrafeKeys::Keep,
            },
            final(self).keys_released() == (turn == Turn::Straight && old(self).keys_released()),
            final(self).jump_count() == old(self).jump_count(),
    {
        match turn {
            Turn::Left => {
                self.keys_released = false;
                StrafeKeys::HoldA
            },
            Turn::Right => {
                self.keys_released = false;
                StrafeKeys::HoldD
            },
            Turn::Straight => StrafeKeys::Keep,
        }
    }

    /// Not strafing: lets go of the strafe keys if they are down.
    pub fn stop_strafing(&mut self) -> (r: StrafeKeys)
        ensures
            r == (if old(self).keys_released() {
                StrafeKeys::Keep
            } else {
                StrafeKeys::ReleaseBoth
            }),
            final(self).keys_released(),
            final(self).jump_count() == old(self).jump_count(),
    {
        if self.keys_released {
            StrafeKeys::Keep
        } else {
            self.keys_released = true;
            StrafeKeys::ReleaseBoth
        }
    }
}

impl Default for Bhop {
    fn default() -> (r: Self)
        ensures
            r.jump_count() == 0,
            r.keys_released(),
    {
        Bhop::new()
    }
}

} // verus!
