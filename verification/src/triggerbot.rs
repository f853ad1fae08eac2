//! The timing of the trigger bot: when it may look for a target, and the
//! press, release and cooldown of each shot it schedules. Times are
//! milliseconds on a monotonic clock; the caller finds the target and moves
//! the mouse.

use vstd::prelude::*;
use crate::bones::Bones;

verus! {

/// What arms the trigger bot.
#[derive(Debug, Clone, Copy, PartialEq, Eq, Structural)]
pub enum TriggerMode {
    /// While the hotkey is held.
    Hold,
    /// Switched on and off by the hotkey.
    Toggle,
    /// While the fire button is held.
    Shoot,
}

/// The pending shot and whether the toggle is on.
#[derive(Debug, Clone, Copy, PartialEq, Eq, Structural)]
pub struct Triggerbot {
    shot_start: Option<u64>,
    shot_end: Option<u64>,
    cooldown_end: Option<u64>,
    pub active: bool,
}

/// What the caller does with the fire button this tick.
#[derive(Debug, Clone, Copy, PartialEq, Eq, Structural)]
pub struct ShotAction {
    pub press: bool,
    pub release: bool,
}

/// How long the fire button is held: 5 to 25 ms for weapons fired by taps
/// (pistols, shotguns, snipers), 5 to 250 ms for the others.
pub open spec fn spec_press_duration(tap_fire: bool, shot_duration: u64) -> u64 {
    let hi: u64 = if tap_fire {
        25
    } else {
        250
    };
    if shot_duration < 5 {
        5
    } else if shot_duration > hi {
        hi
    } else {
        shot_duration
    }
}

/// The pause after a shot: 16 ms for tap-fired weapons, 8 ms for others.
pub open spec fn spec_cooldown(tap_fire: bool) -> u64 {
    if tap_fire {
        16
    } else {
        8
    }
}

pub fn press_duration(tap_fire: bool, shot_duration: u64) -> (r: u64)
    ensures
        r == spec_press_duration(tap_fire, shot_duration),
        5 <= r <= 250,
{
    let hi: u64 = if tap_fire {
        25
    } else {
        250
    };
    if shot_duration < 5 {
        5
    } else if shot_duration > hi {
        hi
    } else {
        shot_duration
    }
}

/// Whether the bot is armed in a mode: by the held hotkey, by the toggle, or
/// by the held fire button.
pub open spec fn spec_armed(mode: TriggerMode, hotkey_pressed: bool, active: bool, fire_pressed: bool) -> bool {
    match mode {
        TriggerMode::Hold => hotkey_pressed,
        TriggerMode::Toggle => active,
        TriggerMode::Shoot => fire_pressed,
    }
}

/// Whether the last shot is over: nothing pending and no cooldown running.
pub open spec fn spec_ready(t: Triggerbot, now: u64) -> bool {
    t.shot_start() is None && t.shot_end() is None && match t.cooldown_end() {
        Some(c) => now >= c,
        None => true,
    }
}

impl Triggerbot {
    pub closed spec fn shot_start(self) -> Option<u64> {
        self.shot_start
    }

    pub closed spec fn shot_end(self) -> Option<u64> {
        self.shot_end
    }

    pub closed spec fn cooldown_end(self) -> Option<u64> {
        self.cooldown_end
    }

    pub closed spec fn is_active(self) -> bool {
        self.active
    }

    /// No shot pending, toggled off.
    pub fn new() -> (r: Self)
        ensures
            r.shot_start() is None,
            r.shot_end() is None,
            r.cooldown_end() is None,
            !r.is_active(),
    {
        Triggerbot { shot_start: None, shot_end: None, cooldown_end: None, active: false }
    }

    /// Whether the bot looks for a target this tick: it must be enabled and
    /// armed, and the last shot must be over. In toggle mode a just pressed
    /// hotkey flips the toggle first; nothing changes when it is disabled.
    pub fn begin_tick(
        &mut self,
        enabled: bool,
        mode: TriggerMode,
        hotkey_pressed: bool,
        hotkey_just_pressed: bool,
        fire_pressed: bool,
        now: u64,
    ) -> (r: bool)
        ensures
            final(self).shot_start() == old(self).shot_start(),
            final(self).shot_end() == old(self).shot_end(),
            final(self).cooldown_end() == old(self).cooldown_end(),
            final(self).is_active() == (if enabled && mode == TriggerMode::Toggle && hotkey_just_pressed {
                !old(self).is_active()
            } else {
                old(self).is_active()
            }),
            r == (enabled && spec_armed(mode, hotkey_pressed, final(self).is_active(), fire_pressed)
                && spec_ready(*old(self), now)),
    {
        if !enabled {
            return false;
        }
        match mode {
            TriggerMode::Hold => {
                if !hotkey_pressed {
                    return false;
                }
            },
            TriggerMode::Toggle => {
                if hotkey_just_pressed {
                    self.active = !self.active;
                }
                if !self.active {
                    return false;
                }
            },
            TriggerMode::Shoot => {
                if !fire_pressed {
                    return false;
                }
            },
        }
        if let Some(c) = self.cooldown_end {
            if now < c {
                return false;
            }
        }
        self.shot_start.is_none() && self.shot_end.is_none()
    }

    /// Schedules a shot decided at `now`: the press after the delay, the
    /// release after the press duration, and the end of the cooldown after
    /// that.
    pub fn schedule_shot(&mut self, now: u64, delay_ms: u64, tap_fire: bool, shot_duration: u64)
        requires
            now + delay_ms + 266 <= u64::MAX,
        ensures
            final(self).is_active() == old(self).is_active(),
            final(self).shot_start() == Some((now + delay_ms) as u64),
            final(self).shot_end() == Some((now + delay_ms + spec_press_duration(tap_fire, shot_duration)) as u64),
            final(self).cooldown_end() == Some(
                (now + delay_ms + spec_press_duration(tap_fire, shot_duration) + spec_cooldown(tap_fire)) as u64,
            ),
    {
        let press = press_duration(tap_fire, shot_duration);
        let cooldown: u64 = if tap_fire {
            16
        } else {
            8
        };
        let start = now + delay_ms;
        self.shot_start = Some(start);
        self.shot_end = Some(start + press);
        self.cooldown_end = Some(start + press + cooldown);
    }

    /// Presses the fire button when the shot is due, releases it when its
    /// press is over, and ends the cooldown when it has run out.
    pub fn shoot(&mut self, now: u64) -> (r: ShotAction)
        ensures
            r.press == (old(self).shot_start() matches Some(t) && now >= t),
            r.release == (old(self).shot_end() matches Some(t) && now >= t),
            final(self).shot_start() == (if r.press {
                None
            } else {
                old(self).shot_start()
            }),
            final(self).shot_end() == (if r.release {
                None
            } else {
                old(self).shot_end()
            }),
            final(self).cooldown_end() == (if old(self).cooldown_end() matches Some(t) && now >= t {
                None
            } else {
                old(self).cooldown_end()
            }),
            final(self).is_active() == old(self).is_active(),
    {
        let mut press = false;
        let mut release = false;
        if let Some(t) = self.shot_start {
            if now >= t {
                press = true;
                self.shot_start = None;
            }
        }
        if let Some(t) = self.shot_end {
            if now >= t {
                release = true;
                self.shot_end = None;
            }
        }
        if let Some(t) = self.cooldown_end {
            if now >= t {
                self.cooldown_end = None;
            }
        }
        ShotAction { press, release }
    }
}

/// A scheduled shot is released only after it is pressed, and the next one
/// can only be scheduled after the release and the cooldown: the bot never
/// fires again before the last shot is over.
pub proof fn lemma_shot_order(t: Triggerbot, now: u64, delay_ms: u64, tap_fire: bool, shot_duration: u64, later: u64)
    requires
        t.shot_start() == Some((now + delay_ms) as u64),
        t.shot_end() == Some((now + delay_ms + spec_press_duration(tap_fire, shot_duration)) as u64),
        t.cooldown_end() == Some(
            (now + delay_ms + spec_press_duration(tap_fire, shot_duration) + spec_cooldown(tap_fire)) as u64,
        ),
        now + delay_ms + 266 <= u64::MAX,
    ensures
        t.shot_start().unwrap() < t.shot_end().unwrap() < t.cooldown_end().unwrap(),
        later < t.cooldown_end().unwrap() ==> !spec_ready(t, later),
{
}


/// The bones the trigger bot checks: the head alone, or the head, neck,
/// upper spine, lower spine and hip.
pub open spec fn spec_trigger_bones(head_only: bool) -> Seq<Bones> {
    if head_only {
        seq![Bones::Head]
    } else {
        seq![Bones::Head, Bones::Neck, Bones::Spine3, Bones::Spine1, Bones::Hip]
    }
}

pub fn trigger_bones(head_only: bool) -> (r: Vec<Bones>)
    ensures
        r@ == spec_trigger_bones(head_only),
{
    let r = if head_only {
        vec![Bones::Head]
    } else {
        vec![Bones::Head, Bones::Neck, Bones::Spine3, Bones::Spine1, Bones::Hip]
    };
    assert(r@ =~= spec_trigger_bones(head_only));
    r
}

/// Whether the checks before aiming pass: not flashed when that is checked,
/// scoped with a sniper rifle when that is checked, and not moving too fast
/// when that is checked.
pub open spec fn spec_checks_pass(
    flash_check: bool,
    flashed: bool,
    scope_check: bool,
    sniper: bool,
    scoped: bool,
    velocity_check: bool,
    too_fast: bool,
) -> bool {
    !(flash_check && flashed) && !(scope_check && sniper && !scoped) && !(velocity_check && too_fast)
}

pub fn checks_pass(
    flash_check: bool,
    flashed: bool,
    scope_check: bool,
    sniper: bool,
    scoped: bool,
    velocity_check: bool,
    too_fast: bool,
) -> (r: bool)
    ensures
        r == spec_checks_pass(flash_check, flashed, scope_check, sniper, scoped, velocity_check, too_fast),
{
    if flash_check && flashed {
        return false;
    }
    if scope_check && sniper && !scoped {
        return false;
    }
    !(velocity_check && too_fast)
}

/// The order key of the largest finite angle: a bone at or beyond it never
/// counts as found.
pub const FOV_CEILING: u32 = 0x7f7f_ffff;

/// A bone the trigger bot could fire at: whether it can be used (placed, and
/// not behind smoke when that is checked) and the order key of its angle
/// from the crosshair.
#[derive(Debug, Clone, Copy, PartialEq, Eq, Structural)]
pub struct BonePoint {
    pub usable: bool,
    pub fov: u32,
}

/// Whether a bone counts in the search for the best one.
pub open spec fn counts(b: BonePoint) -> bool {
    b.usable && b.fov < FOV_CEILING
}

/// Whether bone `i` is the first counting bone with the smallest angle.
pub open spec fn best_bone(bones: Seq<BonePoint>, i: int) -> bool {
    &&& 0 <= i < bones.len()
    &&& counts(bones[i])
    &&& forall|j: int| 0 <= j < i && counts(#[trigger] bones[j]) ==> bones[i].fov < bones[j].fov
    &&& forall|j: int| i < j < bones.len() && counts(#[trigger] bones[j]) ==> bones[i].fov <= bones[j].fov
}

/// Whether some bone counts.
pub open spec fn has_bone(bones: Seq<BonePoint>) -> bool {
    exists|j: int| 0 <= j < bones.len() && counts(#[trigger] bones[j])
}

/// Whether some counting bone lies within `fov`.
pub open spec fn within(bones: Seq<BonePoint>, fov: u32) -> bool {
    exists|j: int| 0 <= j < bones.len() && counts(#[trigger] bones[j]) && bones[j].fov <= fov
}

/// `v` is smaller than the angle of every counting bone.
pub open spec fn below_all(v: u32, bones: Seq<BonePoint>) -> bool {
    forall|j: int| 0 <= j < bones.len() && counts(#[trigger] bones[j]) ==> v < bones[j].fov
}

/// `v` is at most the angle of every counting bone.
pub open spec fn at_most_all(v: u32, bones: Seq<BonePoint>) -> bool {
    forall|j: int| 0 <= j < bones.len() && counts(#[trigger] bones[j]) ==> v <= bones[j].fov
}

/// A player the trigger bot could fire at.
#[derive(Debug, Clone)]
pub struct TriggerTarget {
    pub valid: bool,
    /// On the local player's team.
    pub same_team: bool,
    /// The bones checked, in the order of `trigger_bones`.
    pub bones: Vec<BonePoint>,
}

/// Whether the trigger bot may fire at a player: valid, an enemy unless
/// everyone is, and with a bone that counts.
pub open spec fn can_trigger(ffa: bool, t: TriggerTarget) -> bool {
    t.valid && (ffa || !t.same_team) && has_bone(t.bones@)
}

/// Whether the player under the crosshair, if any, may be fired at.
pub open spec fn crosshair_fires(ffa: bool, crosshair: Option<TriggerTarget>) -> bool {
    crosshair matches Some(c) && can_trigger(ffa, c)
}

/// Where the chosen target came from.
#[derive(Debug, Clone, Copy, PartialEq, Eq, Structural)]
pub enum TriggerSource {
    /// The player under the crosshair.
    Crosshair,
    /// The player at this index, found by the aim assist.
    Player(usize),
}

/// The target chosen: where it came from, its bone, and that bone's angle.
#[derive(Debug, Clone, Copy, PartialEq, Eq, Structural)]
pub struct TriggerChoice {
    pub source: TriggerSource,
    pub bone: usize,
    pub fov: u32,
}

/// Whether bone `bi` of player `pi` is what the aim assist picks: the
/// player's best bone, within `aim_fov`, smaller than the best bone of every
/// earlier player in reach and at most that of every later one.
pub open spec fn is_assist_pick(players: Seq<TriggerTarget>, ffa: bool, aim_fov: u32, pi: int, bi: int) -> bool {
    &&& 0 <= pi < players.len()
    &&& can_trigger(ffa, players[pi])
    &&& best_bone(players[pi].bones@, bi)
    &&& players[pi].bones@[bi].fov <= aim_fov
    &&& forall|q: int|
        0 <= q < pi && can_trigger(ffa, #[trigger] players[q]) && within(players[q].bones@, aim_fov)
            ==> below_all(players[pi].bones@[bi].fov, players[q].bones@)
    &&& forall|q: int|
        pi < q < players.len() && can_trigger(ffa, #[trigger] players[q]) && within(players[q].bones@, aim_fov)
            ==> at_most_all(players[pi].bones@[bi].fov, players[q].bones@)
}

/// The first counting bone with the smallest angle, if any counts.
fn pick_bone(bones: &[BonePoint]) -> (r: Option<usize>)
    ensures
        r is None <==> !has_bone(bones@),
        r matches Some(i) ==> best_bone(bones@, i as int) && at_most_all(bones@[i as int].fov, bones@),
{
    let mut best: Option<usize> = None;
    let mut best_fov: u32 = FOV_CEILING;
    let mut k: usize = 0;
    while k < bones.len()
        invariant
            k <= bones@.len(),
            best is None ==> best_fov == FOV_CEILING && forall|j: int| 0 <= j < k ==> !counts(#[trigger] bones@[j]),
            best matches Some(i) ==> i < k && best_fov == bones@[i as int].fov && best_bone(bones@.subrange(0, k as int), i as int),
        decreases bones@.len() - k,
    {
        let ghost before = bones@.subrange(0, k as int);
        let ghost after = bones@.subrange(0, k + 1);
        assert(after =~= before.push(bones@[k as int]));
        if bones[k].usable && bones[k].fov < best_fov {
            best = Some(k);
            best_fov = bones[k].fov;
            proof {
                assert forall|j: int| 0 <= j < k && counts(#[trigger] after[j]) implies after[k as int].fov < after[j].fov by {
                    assert(before[j] == after[j]);
                }
            }
        } else {
            proof {
                if let Some(i) = best {
                    assert forall|j: int| 0 <= j < i && counts(#[trigger] after[j]) implies after[i as int].fov < after[j].fov by {
                        assert(before[j] == after[j]);
                    }
                    assert forall|j: int| i < j < k + 1 && counts(#[trigger] after[j]) implies after[i as int].fov <= after[j].fov by {
                        if j < k {
                            assert(before[j] == after[j]);
                        }
                    }
                }
            }
        }
        k += 1;
    }
    assert(bones@.subrange(0, k as int) =~= bones@);
    proof {
        if let Some(i) = best {
            assert forall|j: int| 0 <= j < bones@.len() && counts(#[trigger] bones@[j]) implies bones@[i as int].fov <= bones@[j].fov by {
                if j < i {
                    assert(bones@[i as int].fov < bones@[j].fov);
                }
            }
        }
    }
    best
}

fn trigger_candidate(ffa: bool, t: &TriggerTarget) -> (r: Option<usize>)
    ensures
        r is None <==> !can_trigger(ffa, *t),
        r matches Some(i) ==> best_bone(t.bones@, i as int) && at_most_all(t.bones@[i as int].fov, t.bones@),
{
    if !t.valid || (!ffa && t.same_team) {
        return None;
    }
    pick_bone(t.bones.as_slice())
}

/// Chooses what the trigger bot fires at: the player under the crosshair if
/// it may; otherwise, with the aim assist on, the player in reach of
/// `aim_fov` whose best bone has the smallest angle (the first such).
pub fn pick_trigger_target(
    crosshair: &Option<TriggerTarget>,
    players: &[TriggerTarget],
    ffa: bool,
    aim_assist: bool,
    aim_fov: u32,
) -> (r: Option<TriggerChoice>)
    ensures
        crosshair_fires(ffa, *crosshair) ==> (r matches Some(ch) && ch.source
            == TriggerSource::Crosshair && best_bone(crosshair->0.bones@, ch.bone as int) && ch.fov
            == crosshair->0.bones@[ch.bone as int].fov),
        !crosshair_fires(ffa, *crosshair) ==> {
            &&& (r is None <==> (!aim_assist || forall|q: int|
                0 <= q < players@.len() ==> !(can_trigger(ffa, #[trigger] players@[q]) && within(
                    players@[q].bones@,
                    aim_fov,
                ))))
            &&& (r matches Some(ch) ==> (ch.source matches TriggerSource::Player(pi) && is_assist_pick(
                players@,
                ffa,
                aim_fov,
                pi as int,
                ch.bone as int,
            ) && ch.fov == players@[pi as int].bones@[ch.bone as int].fov))
        },
{
    if let Some(c) = crosshair {
        if let Some(b) = trigger_candidate(ffa, c) {
            return Some(TriggerChoice { source: TriggerSource::Crosshair, bone: b, fov: c.bones[b].fov });
        }
    }
    if !aim_assist {
        return None;
    }
    let mut best: Option<(usize, usize, u32)> = None;
    let mut k: usize = 0;
    while k < players.len()
        invariant
            k <= players@.len(),
            best is None <==> forall|q: int| 0 <= q < k ==> !(can_trigger(ffa, #[trigger] players@[q]) && within(players@[q].bones@, aim_fov)),
            best matches Some((pi, bi, f)) ==> pi < k && f == players@[pi as int].bones@[bi as int].fov
                && is_assist_pick(players@.subrange(0, k as int), ffa, aim_fov, pi as int, bi as int),
        decreases players@.len() - k,
    {
        let ghost before = players@.subrange(0, k as int);
        let ghost after = players@.subrange(0, k + 1);
        assert(after =~= before.push(players@[k as int]));
        let t = &players[k];
        let ghost old_best = best;
        match trigger_candidate(ffa, t) {
            None => {},
            Some(b) => {
                let f = t.bones[b].fov;
                proof {
                    if f > aim_fov {
                        assert(!within(t.bones@, aim_fov));
                    }
                }
                if f <= aim_fov {
                    let take = match best {
                        None => true,
                        Some((_, _, bf)) => f < bf,
                    };
                    if take {
                        best = Some((k, b, f));
                    }
                }
            },
        }
        proof {
            match best {
                Some((pi, bi, f)) => {
                    if pi < k {
                        assert(before[pi as int] == after[pi as int]);
                    }
                    let pf = after[pi as int].bones@[bi as int].fov;
                    assert forall|q: int| 0 <= q < pi && can_trigger(ffa, #[trigger] after[q]) && within(after[q].bones@, aim_fov)
                        implies below_all(pf, after[q].bones@) by {
                        assert(before[q] == after[q]);
                        if pi == k {
                            if let Some((opi, obi, of)) = old_best {
                                let qs = after[q].bones@;
                                assert(before[opi as int] == after[opi as int]);
                                assert(at_most_all(of, after[opi as int].bones@)) by {
                                    let ops = after[opi as int].bones@;
                                    assert forall|j: int| 0 <= j < ops.len() && counts(#[trigger] ops[j]) implies of <= ops[j].fov by {
                                        if j < obi {
                                            assert(ops[obi as int].fov < ops[j].fov);
                                        }
                                    }
                                }
                                assert forall|j: int| 0 <= j < qs.len() && counts(#[trigger] qs[j]) implies pf < qs[j].fov by {
                                    if q < opi {
                                        assert(below_all(of, qs));
                                    } else if q > opi {
                                        assert(at_most_all(of, qs));
                                    }
                                }
                            }
                        }
                    }
                    assert forall|q: int| pi < q < k + 1 && can_trigger(ffa, #[trigger] after[q]) && within(after[q].bones@, aim_fov)
                        implies at_most_all(pf, after[q].bones@) by {
                        if q < k {
                            assert(before[q] == after[q]);
                        }
                    }
                },
                None => {},
            }
        }
        k += 1;
        proof {
            assert forall|q: int| 0 <= q < k && can_trigger(ffa, #[trigger] players@[q]) && within(players@[q].bones@, aim_fov) implies best is Some by {
                if q < k - 1 {
                    assert(before[q] == players@[q]);
                }
            }
        }
    }
    assert(players@.subrange(0, k as int) =~= players@);
    match best {
        None => None,
        Some((pi, bi, f)) => Some(TriggerChoice { source: TriggerSource::Player(pi), bone: bi, fov: f }),
    }
}

/// What the trigger bot does with its target.
#[derive(Debug, Clone, Copy, PartialEq, Eq, Structural)]
pub struct TriggerDecision {
    /// Move the mouse toward the target.
    pub aim: bool,
    /// Schedule a shot.
    pub fire: bool,
}

/// It aims with the aim assist on and the target within `aim_fov`; it fires
/// at the player under the crosshair, or with the aim assist on at a target
/// within `fire_fov`.
pub fn trigger_decision(choice: &TriggerChoice, aim_assist: bool, aim_fov: u32, fire_fov: u32) -> (r: TriggerDecision)
    ensures
        r.aim == (aim_assist && choice.fov <= aim_fov),
        r.fire == (choice.source == TriggerSource::Crosshair || (aim_assist && choice.fov <= fire_fov)),
{
    let from_crosshair = match choice.source {
        TriggerSource::Crosshair => true,
        TriggerSource::Player(_) => false,
    };
    TriggerDecision {
        aim: aim_assist && choice.fov <= aim_fov,
        fire: from_crosshair || (aim_assist && choice.fov <= fire_fov),
    }
}

} // verus!
