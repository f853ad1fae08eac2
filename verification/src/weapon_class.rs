//! Weapon classes and the rules that depend on them: which weapons the
//! aimbot and the recoil control work with, what the recoil control does, which are fired by taps, where
//! the recoil punch is read from, and the minimap color of each class.

use vstd::prelude::*;
use crate::gui::Colors;

verus! {

/// The class of the weapon a player holds.
#[derive(Debug, Clone, Copy, PartialEq, Eq, Hash, Structural)]
pub enum WeaponClass {
    Unknown,
    Knife,
    Pistol,
    Smg,
    Heavy,
    Shotgun,
    Rifle,
    Sniper,
    Grenade,
    Utility,
}

/// Pistols, shotguns and sniper rifles are fired by taps.
pub open spec fn spec_tap_fire(class: WeaponClass) -> bool {
    class == WeaponClass::Pistol || class == WeaponClass::Shotgun || class == WeaponClass::Sniper
}

/// The aimbot works with every class but knives, grenades and unknown ones.
pub open spec fn spec_aimbot_allowed(class: WeaponClass) -> bool {
    !(class == WeaponClass::Unknown || class == WeaponClass::Knife || class == WeaponClass::Grenade)
}

/// The recoil control leaves out pistols and shotguns too.
pub open spec fn spec_rcs_allowed(class: WeaponClass) -> bool {
    spec_aimbot_allowed(class) && !(class == WeaponClass::Pistol || class == WeaponClass::Shotgun)
}

impl WeaponClass {
    pub fn tap_fire(self) -> (r: bool)
        ensures
            r == spec_tap_fire(self),
    {
        matches!(self, WeaponClass::Pistol | WeaponClass::Shotgun | WeaponClass::Sniper)
    }

    pub fn aimbot_allowed(self) -> (r: bool)
        ensures
            r == spec_aimbot_allowed(self),
    {
        !matches!(self, WeaponClass::Unknown | WeaponClass::Knife | WeaponClass::Grenade)
    }

    pub fn rcs_allowed(self) -> (r: bool)
        ensures
            r == spec_rcs_allowed(self),
    {
        !matches!(
            self,
            WeaponClass::Unknown | WeaponClass::Knife | WeaponClass::Grenade | WeaponClass::Pistol
                | WeaponClass::Shotgun
        )
    }
}

/// Where the recoil punch used for aiming comes from.
#[derive(Debug, Clone, Copy, PartialEq, Eq, Structural)]
pub enum PunchSource {
    /// No punch: sniper rifles.
    Zero,
    /// The punch kept from before: the game reads zero during a spray.
    Previous,
    /// The punch the game reads now.
    Current,
}

/// Sniper rifles get no punch; a zero punch after more than one shot keeps
/// the previous one; otherwise the current punch counts.
pub open spec fn spec_punch_source(class: WeaponClass, punch_is_zero: bool, shots_fired: i32) -> PunchSource {
    if class == WeaponClass::Sniper {
        PunchSource::Zero
    } else if punch_is_zero && shots_fired > 1 {
        PunchSource::Previous
    } else {
        PunchSource::Current
    }
}

pub fn punch_source(class: WeaponClass, punch_is_zero: bool, shots_fired: i32) -> (r: PunchSource)
    ensures
        r == spec_punch_source(class, punch_is_zero, shots_fired),
{
    match class {
        WeaponClass::Sniper => PunchSource::Zero,
        _ => {
            if punch_is_zero && shots_fired > 1 {
                PunchSource::Previous
            } else {
                PunchSource::Current
            }
        },
    }
}

/// The color a class is drawn in on the minimap.
pub open spec fn spec_class_color(class: WeaponClass) -> [u8; 3] {
    match class {
        WeaponClass::Pistol => Colors::SUBTEXT,
        WeaponClass::Smg => Colors::TEAL,
        WeaponClass::Heavy => Colors::PURPLE,
        WeaponClass::Shotgun => Colors::ORANGE,
        WeaponClass::Rifle => Colors::YELLOW,
        WeaponClass::Sniper => Colors::RED,
        WeaponClass::Grenade => Colors::GREEN,
        WeaponClass::Utility => Colors::BLUE,
        WeaponClass::Knife | WeaponClass::Unknown => Colors::TEXT,
    }
}

pub fn class_color(class: WeaponClass) -> (r: [u8; 3])
    ensures
        r == spec_class_color(class),
{
    match class {
        WeaponClass::Pistol => Colors::SUBTEXT,
        WeaponClass::Smg => Colors::TEAL,
        WeaponClass::Heavy => Colors::PURPLE,
        WeaponClass::Shotgun => Colors::ORANGE,
        WeaponClass::Rifle => Colors::YELLOW,
        WeaponClass::Sniper => Colors::RED,
        WeaponClass::Grenade => Colors::GREEN,
        WeaponClass::Utility => Colors::BLUE,
        WeaponClass::Knife | WeaponClass::Unknown => Colors::TEXT,
    }
}


/// What the recoil control does this tick.
#[derive(Debug, Clone, Copy, PartialEq, Eq, Structural)]
pub enum RcsStep {
    /// Nothing: disabled, no local player, or a weapon it leaves alone.
    Skip,
    /// No shot fired yet: remember the punch and forget what was left over.
    Reset,
    /// Counter the change in punch since the last tick.
    Compensate,
}

pub open spec fn spec_rcs_step(enabled: bool, has_local_player: bool, class: WeaponClass, shots_fired: i32) -> RcsStep {
    if !enabled || !has_local_player || !spec_rcs_allowed(class) {
        RcsStep::Skip
    } else if shots_fired < 1 {
        RcsStep::Reset
    } else {
        RcsStep::Compensate
    }
}

pub fn rcs_step(enabled: bool, has_local_player: bool, class: WeaponClass, shots_fired: i32) -> (r: RcsStep)
    ensures
        r == spec_rcs_step(enabled, has_local_player, class, shots_fired),
{
    if !enabled || !has_local_player || !class.rcs_allowed() {
        RcsStep::Skip
    } else if shots_fired < 1 {
        RcsStep::Reset
    } else {
        RcsStep::Compensate
    }
}

/// The recoil control moves the mouse unless the aimbot is active with its
/// key held, so that the two do not fight.
pub fn rcs_moves_mouse(aim_active: bool, aim_hotkey_down: bool) -> (r: bool)
    ensures
        r == (!aim_active || !aim_hotkey_down),
{
    !aim_active || !aim_hotkey_down
}

} // verus!
