//! Entity handles, per-feature state, hotkey handling and the keyboard state
//! read from the game.

use vstd::prelude::*;

verus! {

/// A chicken, known by the address of its controller.
#[derive(Debug, Clone, Copy, PartialEq, Eq, Structural)]
pub struct Chicken {
    controller: usize,
}

impl View for Chicken {
    type V = usize;

    /// The controller address.
    closed spec fn view(&self) -> usize {
        self.controller
    }
}

impl Chicken {
    pub fn new(controller: usize) -> (r: Self)
        ensures
            r@ == controller,
    {
        Self { controller }
    }

    pub fn controller(&self) -> (r: usize)
        ensures
            r == self@,
    {
        self.controller
    }
}

/// Handle-backed functionality shared by all client entities: an entity is
/// known by the address of its object in the game's memory.
#[derive(Debug, Clone, Copy, PartialEq, Eq, Hash, Structural)]
pub struct BaseEntity {
    handle: usize,
}

impl View for BaseEntity {
    type V = usize;

    /// The entity's address.
    closed spec fn view(&self) -> usize {
        self.handle
    }
}

impl BaseEntity {
    pub fn new(handle: usize) -> (r: Self)
        ensures
            r@ == handle,
    {
        Self { handle }
    }

    /// The address of the entity.
    pub fn handle(&self) -> (r: usize)
        ensures
            r == self@,
    {
        self.handle
    }

    /// The address of a field at `rhs` bytes into the entity.
    pub fn add(self, rhs: usize) -> (r: usize)
        requires
            self@ + rhs <= usize::MAX,
        ensures
            r == self@ + rhs,
    {
        self.handle + rhs
    }
}

/// Whether the ESP is switched on by its hotkey.
#[derive(Debug, Clone, Copy, PartialEq, Eq, Structural)]
pub struct EspToggle {
    pub active: bool,
}

impl Default for EspToggle {
    fn default() -> (r: Self)
        ensures
            r.active,
    {
        Self { active: true }
    }
}

impl EspToggle {
    /// Flips the toggle when its hotkey was just pressed; a toggle without a
    /// bound hotkey never changes.
    pub fn update(&mut self, hotkey_bound: bool, just_pressed: bool)
        ensures
            final(self).active == (if hotkey_bound && just_pressed {
                !old(self).active
            } else {
                old(self).active
            }),
    {
        if !hotkey_bound {
            return;
        }
        check_hotkey(KeyMode::Toggle, false, just_pressed, &mut self.active);
    }

    /// Whether the ESP is drawn: player ESP enabled and toggled on.
    pub fn enabled(&self, player_enabled: bool) -> (r: bool)
        ensures
            r == (player_enabled && self.active),
    {
        player_enabled && self.active
    }
}

/// Whether the grenade helper is moving the view this tick.
#[derive(Debug, Clone, Copy, PartialEq, Eq, Structural)]
pub struct GrenadeAlign {
    pub is_aligning: bool,
}

impl Default for GrenadeAlign {
    fn default() -> (r: Self)
        ensures
            !r.is_aligning,
    {
        Self { is_aligning: false }
    }
}

/// The order key of 24 units: the farthest a saved throw spot may be.
pub const GRENADE_MAX_DISTANCE: u32 = 0x41c0_0000;

/// A saved grenade throw on the current map, as the helper sees it: whether
/// it is for the grenade held, and the order keys of the distance to its
/// spot and of the angle to its view.
#[derive(Debug, Clone, Copy, PartialEq, Eq, Structural)]
pub struct GrenadeSpot {
    pub same_weapon: bool,
    pub distance: u32,
    pub fov: u32,
}

/// Whether a throw is a candidate: for the grenade held, near enough, and
/// within the angle allowed.
pub open spec fn spot_counts(s: GrenadeSpot, fov_limit: u32) -> bool {
    s.same_weapon && s.distance <= GRENADE_MAX_DISTANCE && s.fov <= fov_limit
}

/// Whether `i` is the first candidate with the smallest angle.
pub open spec fn best_spot(spots: Seq<GrenadeSpot>, fov_limit: u32, i: int) -> bool {
    &&& 0 <= i < spots.len()
    &&& spot_counts(spots[i], fov_limit)
    &&& forall|j: int| 0 <= j < i && spot_counts(#[trigger] spots[j], fov_limit) ==> spots[i].fov < spots[j].fov
    &&& forall|j: int| i < j < spots.len() && spot_counts(#[trigger] spots[j], fov_limit) ==> spots[i].fov <= spots[j].fov
}

/// Whether some throw is a candidate.
pub open spec fn any_spot(spots: Seq<GrenadeSpot>, fov_limit: u32) -> bool {
    exists|j: int| 0 <= j < spots.len() && spot_counts(#[trigger] spots[j], fov_limit)
}

/// The throw to align with: the first candidate with the smallest angle.
pub fn pick_grenade_spot(spots: &[GrenadeSpot], fov_limit: u32) -> (r: Option<usize>)
    ensures
        r is None <==> !any_spot(spots@, fov_limit),
        r matches Some(i) ==> best_spot(spots@, fov_limit, i as int),
{
    let mut best: Option<usize> = None;
    let mut k: usize = 0;
    while k < spots.len()
        invariant
            k <= spots@.len(),
            best is None ==> forall|j: int| 0 <= j < k ==> !spot_counts(#[trigger] spots@[j], fov_limit),
            best matches Some(i) ==> i < k && best_spot(spots@.subrange(0, k as int), fov_limit, i as int),
        decreases spots@.len() - k,
    {
        let ghost before = spots@.subrange(0, k as int);
        let ghost after = spots@.subrange(0, k + 1);
        assert(after =~= before.push(spots@[k as int]));
        let s = spots[k];
        if s.same_weapon && s.distance <= GRENADE_MAX_DISTANCE && s.fov <= fov_limit {
            let take = match best {
                None => true,
                Some(i) => s.fov < spots[i].fov,
            };
            if take {
                proof {
                    assert forall|j: int| 0 <= j < k && spot_counts(#[trigger] after[j], fov_limit) implies after[k as int].fov < after[j].fov by {
                        assert(before[j] == after[j]);
                        if let Some(i) = best {
                            assert(before[i as int] == spots@[i as int]);
                        }
                    }
                }
                best = Some(k);
            }
        }
        proof {
            if let Some(i) = best {
                if i < k {
                    assert(before[i as int] == after[i as int]);
                    assert forall|j: int| 0 <= j < i && spot_counts(#[trigger] after[j], fov_limit) implies after[i as int].fov < after[j].fov by {
                        assert(before[j] == after[j]);
                    }
                    assert forall|j: int| i < j < k + 1 && spot_counts(#[trigger] after[j], fov_limit) implies after[i as int].fov <= after[j].fov by {
                        if j < k {
                            assert(before[j] == after[j]);
                        }
                    }
                }
            }
        }
        k += 1;
    }
    assert(spots@.subrange(0, k as int) =~= spots@);
    best
}

impl GrenadeAlign {
    /// One tick of the grenade helper: with it enabled, its key held, a
    /// valid local player holding a grenade and throws saved for the map,
    /// it aligns with the throw `pick_grenade_spot` finds; otherwise, or
    /// when none is found, it stops aligning.
    pub fn step(
        &mut self,
        enabled: bool,
        hotkey_pressed: bool,
        player_valid: bool,
        holding_grenade: bool,
        spots: Option<&[GrenadeSpot]>,
        fov_limit: u32,
    ) -> (r: Option<usize>)
        ensures
            final(self).is_aligning == r is Some,
            !(enabled && hotkey_pressed && player_valid && holding_grenade && spots is Some) ==> r is None,
            (enabled && hotkey_pressed && player_valid && holding_grenade && spots is Some) ==> {
                &&& (r is None <==> !any_spot(spots->0@, fov_limit))
                &&& (r matches Some(i) ==> best_spot(spots->0@, fov_limit, i as int))
            },
    {
        let r = if enabled && hotkey_pressed && player_valid && holding_grenade {
            match spots {
                Some(s) => pick_grenade_spot(s, fov_limit),
                None => None,
            }
        } else {
            None
        };
        self.is_aligning = r.is_some();
        r
    }
}

/// The kind of sound a player made.
#[derive(Debug, Clone, Copy, PartialEq, Eq, Structural)]
pub enum SoundType {
    Footstep,
    Gunshot,
    Weapon,
}

/// Whether a feature is active while its key is held, or switched by it.
#[derive(Debug, Clone, Copy, PartialEq, Eq, Structural)]
pub enum KeyMode {
    Hold,
    Toggle,
}

/// Whether a feature bound to a key is active: while the key is held in
/// `Hold` mode; in `Toggle` mode the stored state, flipped when the key was
/// just pressed.
pub fn check_hotkey(mode: KeyMode, pressed: bool, just_pressed: bool, active: &mut bool) -> (r: bool)
    ensures
        mode == KeyMode::Hold ==> r == pressed && *final(active) == *old(active),
        mode == KeyMode::Toggle ==> *final(active) == (if just_pressed {
            !*old(active)
        } else {
            *old(active)
        }) && r == *final(active),
{
    match mode {
        KeyMode::Hold => pressed,
        KeyMode::Toggle => {
            if just_pressed {
                *active = !*active;
            }
            *active
        },
    }
}

/// Number of keys whose state the game keeps.
pub const MAX_KEY: usize = 512;

/// Whether key `idx` is down in a key state: bit `idx % 8` of byte `idx / 8`.
pub open spec fn key_bit(state: Seq<u8>, idx: int) -> bool {
    0 <= idx < 8 * state.len() && (state[idx / 8] >> ((idx % 8) as u8)) & 1u8 == 1u8
}

/// The keyboard and mouse button state of the game, this tick and the last.
#[derive(Debug, Clone)]
pub struct Input {
    previous_state: Vec<u8>,
    current_state: Vec<u8>,
}

impl Input {
    pub closed spec fn previous(&self) -> Seq<u8> {
        self.previous_state@
    }

    pub closed spec fn current(&self) -> Seq<u8> {
        self.current_state@
    }

    /// No key down, now or before.
    pub fn new() -> (r: Self)
        ensures
            r.previous().len() == MAX_KEY / 8,
            r.current().len() == MAX_KEY / 8,
            forall|i: int| 0 <= i < MAX_KEY ==> !key_bit(r.previous(), i) && !key_bit(r.current(), i),
    {
        let state: Vec<u8> = vec![0u8; MAX_KEY / 8];
        assert forall|i: int| 0 <= i < MAX_KEY implies !key_bit(state@, i) by {
            let b = state@[i / 8];
            let s = (i % 8) as u8;
            assert(b == 0);
            assert((0u8 >> s) & 1u8 == 0u8) by (bit_vector);
        }
        Self { previous_state: state.clone(), current_state: state }
    }

    /// Takes in a new key state read from the game; the current one becomes
    /// the previous one.
    pub fn update(&mut self, bytes: Vec<u8>)
        ensures
            final(self).previous() == old(self).current(),
            final(self).current() == bytes@,
    {
        self.previous_state = self.current_state.clone();
        self.current_state = bytes;
    }

    /// Whether the key is down now; keys at or beyond `MAX_KEY` never are.
    pub fn is_key_pressed(&self, idx: usize) -> (r: bool)
        ensures
            r == (idx < MAX_KEY && key_bit(self.current(), idx as int)),
    {
        if idx >= MAX_KEY {
            return false;
        }
        read_bit(&self.current_state, idx)
    }

    /// Whether the key went down since the last tick.
    pub fn key_just_pressed(&self, idx: usize) -> (r: bool)
        ensures
            r == (idx < MAX_KEY && !key_bit(self.previous(), idx as int) && key_bit(
                self.current(),
                idx as int,
            )),
    {
        if idx >= MAX_KEY {
            return false;
        }
        let prev = read_bit(&self.previous_state, idx);
        let curr = read_bit(&self.current_state, idx);
        !prev && curr
    }
}

/// Bit `idx` of a key state, false past its end.
fn read_bit(state: &Vec<u8>, idx: usize) -> (r: bool)
    requires
        idx < MAX_KEY,
    ensures
        r == key_bit(state@, idx as int),
{
    let byte = idx / 8;
    if byte >= state.len() {
        return false;
    }
    let shift = (idx % 8) as u8;
    (state[byte] >> shift) & 1u8 == 1u8
}

} // verus!
