//! The aimbot's choice of target: among the players it may aim at, the bone
//! that ranks best by angle from the crosshair or by distance. Angles and
//! distances come in as order keys: integers that order as the quantities do
//! (for the non-negative values measured here, their IEEE bits).

use vstd::prelude::*;
use crate::bones::Bones;
use crate::weapon_class::{spec_aimbot_allowed, WeaponClass};

verus! {

/// How the aimbot ranks candidates.
#[derive(Debug, Clone, Copy, PartialEq, Eq, Structural)]
pub enum TargetingMode {
    /// The smallest angle from the crosshair.
    Fov,
    /// The nearest.
    Distance,
}

/// A point the aimbot could aim at, by the order keys of its angle from the
/// crosshair and its distance from the eye.
#[derive(Debug, Clone, Copy, PartialEq, Eq, Structural)]
pub struct AimPoint {
    pub fov: u32,
    pub distance: u32,
}

/// The key a mode ranks points by.
pub open spec fn rank(mode: TargetingMode, p: AimPoint) -> int {
    match mode {
        TargetingMode::Fov => p.fov as int,
        TargetingMode::Distance => p.distance as int,
    }
}

/// Whether `a` ranks strictly better than `b`.
pub open spec fn better(mode: TargetingMode, a: AimPoint, b: AimPoint) -> bool {
    rank(mode, a) < rank(mode, b)
}

/// Whether `i` is the first of the best ranked points: better than every
/// point before it, and no point after it is better.
pub open spec fn first_best(mode: TargetingMode, pts: Seq<AimPoint>, i: int) -> bool {
    &&& 0 <= i < pts.len()
    &&& forall|j: int| 0 <= j < i ==> better(mode, pts[i], #[trigger] pts[j])
    &&& forall|j: int| i < j < pts.len() ==> !better(mode, #[trigger] pts[j], pts[i])
}

/// `a` is better than every point of `pts`.
pub open spec fn beats_all(mode: TargetingMode, a: AimPoint, pts: Seq<AimPoint>) -> bool {
    forall|j: int| 0 <= j < pts.len() ==> better(mode, a, #[trigger] pts[j])
}

/// No point of `pts` is better than `a`.
pub open spec fn beaten_by_none(mode: TargetingMode, a: AimPoint, pts: Seq<AimPoint>) -> bool {
    forall|j: int| 0 <= j < pts.len() ==> !better(mode, #[trigger] pts[j], a)
}

fn is_better(mode: TargetingMode, a: &AimPoint, b: &AimPoint) -> (r: bool)
    ensures
        r == better(mode, *a, *b),
{
    match mode {
        TargetingMode::Fov => a.fov < b.fov,
        TargetingMode::Distance => a.distance < b.distance,
    }
}

/// The first of the best ranked points, if there is any point.
pub fn best_point(mode: TargetingMode, pts: &[AimPoint]) -> (r: Option<usize>)
    ensures
        r is None <==> pts@.len() == 0,
        r matches Some(i) ==> first_best(mode, pts@, i as int),
{
    if pts.len() == 0 {
        return None;
    }
    let mut best: usize = 0;
    let mut k: usize = 1;
    while k < pts.len()
        invariant
            0 <= best < k <= pts@.len(),
            forall|j: int| 0 <= j < best ==> better(mode, pts@[best as int], #[trigger] pts@[j]),
            forall|j: int| best < j < k ==> !better(mode, #[trigger] pts@[j], pts@[best as int]),
        decreases pts@.len() - k,
    {
        if is_better(mode, &pts[k], &pts[best]) {
            best = k;
        }
        k += 1;
    }
    Some(best)
}

/// Who plays and what the aimbot may aim at.
#[derive(Debug, Clone, Copy, PartialEq, Eq, Structural)]
pub struct TargetRules {
    pub mode: TargetingMode,
    /// The local player is a counter-terrorist or a terrorist.
    pub local_in_team: bool,
    pub ffa: bool,
    pub custom_game: bool,
    pub target_friendlies: bool,
}

/// A player as the aimbot sees it.
#[derive(Debug, Clone)]
pub struct PlayerCandidate {
    pub valid: bool,
    /// On the local player's team.
    pub same_team: bool,
    /// The order key of the head's angle from the crosshair.
    pub head_fov: u32,
    /// The order key of the largest angle allowed at the head's distance.
    pub fov_limit: u32,
    /// The aim point of each bone.
    pub bones: Vec<AimPoint>,
}

/// Whether the aimbot may aim at a player: alive and valid, an enemy unless
/// friendlies count, with the head within the angle allowed, and with a bone.
pub open spec fn eligible(rules: TargetRules, p: PlayerCandidate) -> bool {
    &&& p.valid
    &&& (rules.ffa || rules.target_friendlies || rules.custom_game || !p.same_team)
    &&& p.head_fov <= p.fov_limit
    &&& p.bones@.len() > 0
}

/// Whether bone `bi` of player `pi` is the target: the player's best bone,
/// better than the best bone of every eligible player before, and not beaten
/// by a bone of an eligible player after.
pub open spec fn is_target(rules: TargetRules, players: Seq<PlayerCandidate>, pi: int, bi: int) -> bool {
    &&& 0 <= pi < players.len()
    &&& eligible(rules, players[pi])
    &&& first_best(rules.mode, players[pi].bones@, bi)
    &&& forall|q: int|
        0 <= q < pi && eligible(rules, #[trigger] players[q]) ==> beats_all(
            rules.mode,
            players[pi].bones@[bi],
            players[q].bones@,
        )
    &&& forall|q: int|
        pi < q < players.len() && eligible(rules, #[trigger] players[q]) ==> beaten_by_none(
            rules.mode,
            players[pi].bones@[bi],
            players[q].bones@,
        )
}

fn is_eligible(rules: TargetRules, p: &PlayerCandidate) -> (r: bool)
    ensures
        r == eligible(rules, *p),
{
    p.valid && (rules.ffa || rules.target_friendlies || rules.custom_game || !p.same_team)
        && p.head_fov <= p.fov_limit && p.bones.len() > 0
}

/// Picks the target: the player and the bone to aim at, or `None` when the
/// local player is on no team or no player is eligible.
pub fn find_target(rules: TargetRules, players: &[PlayerCandidate]) -> (r: Option<(usize, usize)>)
    ensures
        r is None <==> (!rules.local_in_team || forall|q: int|
            0 <= q < players@.len() ==> !eligible(rules, #[trigger] players@[q])),
        r matches Some((pi, bi)) ==> rules.local_in_team && is_target(rules, players@, pi as int, bi as int),
{
    if !rules.local_in_team {
        return None;
    }
    let mode = rules.mode;
    let mut best: Option<(usize, usize)> = None;
    let mut k: usize = 0;
    while k < players.len()
        invariant
            k <= players@.len(),
            mode == rules.mode,
            best is None <==> forall|q: int| 0 <= q < k ==> !eligible(rules, #[trigger] players@[q]),
            best matches Some((pi, bi)) ==> pi < k && is_target(rules, players@.subrange(0, k as int), pi as int, bi as int),
        decreases players@.len() - k,
    {
        let ghost before = players@.subrange(0, k as int);
        let ghost after = players@.subrange(0, k + 1);
        assert(after =~= before.push(players@[k as int]));
        let p = &players[k];
        if is_eligible(rules, p) {
            let b = best_point(mode, p.bones.as_slice()).unwrap();
            let ghost pts = p.bones@;
            proof {
                assert forall|j: int| 0 <= j < pts.len() implies rank(mode, pts[b as int]) <= rank(mode, #[trigger] pts[j]) by {
                    if j < b {
                        assert(better(mode, pts[b as int], pts[j]));
                    } else if j > b {
                        assert(!better(mode, pts[j], pts[b as int]));
                    }
                }
            }
            match best {
                None => {
                    best = Some((k, b));
                    proof {
                        assert forall|q: int| 0 <= q < k && eligible(rules, #[trigger] after[q]) implies beats_all(mode, after[k as int].bones@[b as int], after[q].bones@) by {
                            assert(before[q] == after[q]);
                        }
                    }
                },
                Some((pi, bi)) => {
                    let cur = p.bones[b];
                    let prev = players[pi].bones[bi];
                    let ghost prev_pts = players@[pi as int].bones@;
                    proof {
                        assert(before[pi as int] == players@[pi as int]);
                        assert forall|j: int| 0 <= j < prev_pts.len() implies rank(mode, prev_pts[bi as int]) <= rank(mode, #[trigger] prev_pts[j]) by {
                            if j < bi {
                                assert(better(mode, prev_pts[bi as int], prev_pts[j]));
                            } else if j > bi {
                                assert(!better(mode, prev_pts[j], prev_pts[bi as int]));
                            }
                        }
                    }
                    if is_better(mode, &cur, &prev) {
                        best = Some((k, b));
                        proof {
                            assert forall|q: int| 0 <= q < k && eligible(rules, #[trigger] after[q]) implies beats_all(mode, cur, after[q].bones@) by {
                                assert(before[q] == after[q]);
                                let qs = after[q].bones@;
                                if q < pi {
                                    assert(beats_all(mode, prev, qs));
                                    assert forall|j: int| 0 <= j < qs.len() implies better(mode, cur, #[trigger] qs[j]) by {
                                        assert(better(mode, prev, qs[j]));
                                    }
                                } else if q > pi {
                                    assert(beaten_by_none(mode, prev, qs));
                                    assert forall|j: int| 0 <= j < qs.len() implies better(mode, cur, #[trigger] qs[j]) by {
                                        assert(!better(mode, qs[j], prev));
                                    }
                                } else {
                                    assert forall|j: int| 0 <= j < qs.len() implies better(mode, cur, #[trigger] qs[j]) by {
                                        assert(rank(mode, prev_pts[bi as int]) <= rank(mode, prev_pts[j]));
                                    }
                                }
                            }
                        }
                    } else {
                        proof {
                            assert(beaten_by_none(mode, prev, pts));
                            assert forall|q: int| 0 <= q < pi && eligible(rules, #[trigger] after[q]) implies beats_all(mode, prev, after[q].bones@) by {
                                assert(before[q] == after[q]);
                            }
                            assert forall|q: int| pi < q < k + 1 && eligible(rules, #[trigger] after[q]) implies beaten_by_none(mode, prev, after[q].bones@) by {
                                if q < k {
                                    assert(before[q] == after[q]);
                                }
                            }
                        }
                    }
                },
            }
        } else {
            proof {
                match best {
                    Some((pi, bi)) => {
                        assert(before[pi as int] == after[pi as int]);
                        assert forall|q: int| 0 <= q < pi && eligible(rules, #[trigger] after[q]) implies beats_all(rules.mode, after[pi as int].bones@[bi as int], after[q].bones@) by {
                            assert(before[q] == after[q]);
                        }
                        assert forall|q: int| pi < q < k + 1 && eligible(rules, #[trigger] after[q]) implies beaten_by_none(rules.mode, after[pi as int].bones@[bi as int], after[q].bones@) by {
                            assert(before[q] == after[q]);
                        }
                    },
                    None => {},
                }
            }
        }
        k += 1;
        proof {
            assert forall|q: int| 0 <= q < k && eligible(rules, #[trigger] players@[q]) implies best is Some by {
                if q < k - 1 {
                    assert(before[q] == players@[q]);
                }
            }
        }
    }
    assert(players@.subrange(0, k as int) =~= players@);
    best
}


/// Whether the aimbot moves toward its target this tick: the target is
/// still valid, the weapon is one it works with, the local player is not
/// flashed and sees the target when those are checked, and enough shots
/// have been fired.
pub open spec fn spec_aim_checks_pass(
    target_valid: bool,
    class: WeaponClass,
    flash_check: bool,
    flashed: bool,
    visibility_check: bool,
    target_visible: bool,
    shots_fired: i32,
    start_bullet: i32,
) -> bool {
    &&& target_valid
    &&& spec_aimbot_allowed(class)
    &&& !(flash_check && flashed)
    &&& !(visibility_check && !target_visible)
    &&& shots_fired >= start_bullet
}

pub fn aim_checks_pass(
    target_valid: bool,
    class: WeaponClass,
    flash_check: bool,
    flashed: bool,
    visibility_check: bool,
    target_visible: bool,
    shots_fired: i32,
    start_bullet: i32,
) -> (r: bool)
    ensures
        r == spec_aim_checks_pass(
            target_valid,
            class,
            flash_check,
            flashed,
            visibility_check,
            target_visible,
            shots_fired,
            start_bullet,
        ),
{
    if !target_valid || !class.aimbot_allowed() {
        return false;
    }
    if flash_check && flashed {
        return false;
    }
    if visibility_check && !target_visible {
        return false;
    }
    shots_fired >= start_bullet
}

/// The order key of 360 degrees: no bone at or beyond it is aimed at.
pub const AIM_FOV_CEILING: u32 = 0x43b4_0000;

/// A bone of the target as the aimbot sees it: whether it is visible, the
/// order key of its angle from the crosshair, and that of the largest angle
/// allowed at its distance.
#[derive(Debug, Clone, Copy, PartialEq, Eq, Structural)]
pub struct BoneAim {
    pub bone: Bones,
    pub visible: bool,
    pub fov: u32,
    pub fov_limit: u32,
}

/// Whether the aimbot may aim at a bone: one of the bones it aims at,
/// visible when that is checked, and within the angle allowed.
pub open spec fn aim_counts(allowed: Seq<Bones>, visibility_check: bool, b: BoneAim) -> bool {
    &&& allowed.contains(b.bone)
    &&& (!visibility_check || b.visible)
    &&& b.fov <= b.fov_limit
    &&& b.fov < AIM_FOV_CEILING
}

/// Whether `i` is the first bone the aimbot may aim at with the smallest
/// angle.
pub open spec fn first_aim_bone(allowed: Seq<Bones>, visibility_check: bool, pts: Seq<BoneAim>, i: int) -> bool {
    &&& 0 <= i < pts.len()
    &&& aim_counts(allowed, visibility_check, pts[i])
    &&& forall|j: int|
        0 <= j < i && aim_counts(allowed, visibility_check, #[trigger] pts[j]) ==> pts[i].fov < pts[j].fov
    &&& forall|j: int|
        i < j < pts.len() && aim_counts(allowed, visibility_check, #[trigger] pts[j]) ==> pts[i].fov <= pts[j].fov
}

/// Whether the aimbot may aim at some bone of `pts`.
pub open spec fn any_aim_bone(allowed: Seq<Bones>, visibility_check: bool, pts: Seq<BoneAim>) -> bool {
    exists|j: int| 0 <= j < pts.len() && aim_counts(allowed, visibility_check, #[trigger] pts[j])
}

fn contains_bone(list: &[Bones], b: Bones) -> (r: bool)
    ensures
        r == list@.contains(b),
{
    let mut k: usize = 0;
    while k < list.len()
        invariant
            k <= list@.len(),
            forall|j: int| 0 <= j < k ==> list@[j] != b,
        decreases list@.len() - k,
    {
        if list[k] == b {
            assert(list@[k as int] == b);
            return true;
        }
        k += 1;
    }
    false
}

fn first_aim(allowed: &[Bones], visibility_check: bool, pts: &[BoneAim]) -> (r: Option<usize>)
    ensures
        r is None <==> !any_aim_bone(allowed@, visibility_check, pts@),
        r matches Some(i) ==> first_aim_bone(allowed@, visibility_check, pts@, i as int),
{
    let mut best: Option<usize> = None;
    let mut smallest: u32 = AIM_FOV_CEILING;
    let mut k: usize = 0;
    while k < pts.len()
        invariant
            k <= pts@.len(),
            best is None ==> smallest == AIM_FOV_CEILING && forall|j: int|
                0 <= j < k ==> !aim_counts(allowed@, visibility_check, #[trigger] pts@[j]),
            best matches Some(i) ==> i < k && smallest == pts@[i as int].fov && first_aim_bone(
                allowed@,
                visibility_check,
                pts@.subrange(0, k as int),
                i as int,
            ),
        decreases pts@.len() - k,
    {
        let ghost before = pts@.subrange(0, k as int);
        let ghost after = pts@.subrange(0, k + 1);
        assert(after =~= before.push(pts@[k as int]));
        let p = pts[k];
        let ok = contains_bone(allowed, p.bone) && (!visibility_check || p.visible) && p.fov <= p.fov_limit;
        if ok && p.fov < smallest {
            best = Some(k);
            smallest = p.fov;
            proof {
                assert forall|j: int| 0 <= j < k && aim_counts(allowed@, visibility_check, #[trigger] after[j])
                    implies after[k as int].fov < after[j].fov by {
                    assert(before[j] == after[j]);
                }
            }
        } else {
            proof {
                if let Some(i) = best {
                    assert forall|j: int| 0 <= j < i && aim_counts(allowed@, visibility_check, #[trigger] after[j])
                        implies after[i as int].fov < after[j].fov by {
                        assert(before[j] == after[j]);
                    }
                    assert forall|j: int| i < j < k + 1 && aim_counts(allowed@, visibility_check, #[trigger] after[j])
                        implies after[i as int].fov <= after[j].fov by {
                        if j < k {
                            assert(before[j] == after[j]);
                        }
                    }
                }
            }
        }
        k += 1;
    }
    assert(pts@.subrange(0, k as int) =~= pts@);
    best
}

/// The bone the aimbot aims at: the first with the smallest angle among the
/// prioritized bones it may aim at, or else among all its bones. The result
/// says which list the index is in (`true` for the prioritized one).
pub fn best_aim_bone(
    prioritized: &[BoneAim],
    bones: &[BoneAim],
    allowed: &[Bones],
    visibility_check: bool,
) -> (r: Option<(bool, usize)>)
    ensures
        any_aim_bone(allowed@, visibility_check, prioritized@) ==> (r matches Some((p, i)) && p
            && first_aim_bone(allowed@, visibility_check, prioritized@, i as int)),
        !any_aim_bone(allowed@, visibility_check, prioritized@) ==> {
            &&& (r is None <==> !any_aim_bone(allowed@, visibility_check, bones@))
            &&& (r matches Some((p, i)) ==> !p && first_aim_bone(allowed@, visibility_check, bones@, i as int))
        },
{
    match first_aim(allowed, visibility_check, prioritized) {
        Some(i) => Some((true, i)),
        None => match first_aim(allowed, visibility_check, bones) {
            Some(i) => Some((false, i)),
            None => None,
        },
    }
}

} // verus!
