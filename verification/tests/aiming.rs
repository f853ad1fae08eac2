use deadlocked::bones::Bones;
use deadlocked::targeting::{
    aim_checks_pass, best_aim_bone, best_point, find_target, AimPoint, BoneAim, PlayerCandidate,
    TargetRules, TargetingMode, AIM_FOV_CEILING,
};
use deadlocked::triggerbot::{
    checks_pass, pick_trigger_target, trigger_bones, trigger_decision, BonePoint, TriggerChoice,
    TriggerDecision, TriggerSource, TriggerTarget, FOV_CEILING,
};
use deadlocked::weapon_class::{
    class_color, punch_source, rcs_moves_mouse, rcs_step, PunchSource, RcsStep, WeaponClass,
};

fn pt(fov: u32, distance: u32) -> AimPoint {
    AimPoint { fov, distance }
}

fn player(valid: bool, same_team: bool, head_fov: u32, fov_limit: u32, bones: Vec<AimPoint>) -> PlayerCandidate {
    PlayerCandidate { valid, same_team, head_fov, fov_limit, bones }
}

fn rules(mode: TargetingMode) -> TargetRules {
    TargetRules { mode, local_in_team: true, ffa: false, custom_game: false, target_friendlies: false }
}

#[test]
fn best_point_keeps_the_first_of_equals() {
    let pts = [pt(5, 90), pt(3, 80), pt(3, 10), pt(7, 10)];
    assert_eq!(best_point(TargetingMode::Fov, &pts), Some(1));
    assert_eq!(best_point(TargetingMode::Distance, &pts), Some(2));
    assert_eq!(best_point(TargetingMode::Fov, &[]), None);
}

#[test]
fn find_target_skips_teammates_invalid_and_far_heads() {
    let players = vec![
        player(true, true, 1, 10, vec![pt(1, 1)]),
        player(false, false, 1, 10, vec![pt(1, 1)]),
        player(true, false, 11, 10, vec![pt(1, 1)]),
        player(true, false, 4, 10, vec![pt(6, 50), pt(4, 60)]),
        player(true, false, 2, 10, vec![pt(5, 40)]),
    ];
    assert_eq!(find_target(rules(TargetingMode::Fov), &players), Some((3, 1)));
    assert_eq!(find_target(rules(TargetingMode::Distance), &players), Some((4, 0)));
    let mut friendly = rules(TargetingMode::Fov);
    friendly.target_friendlies = true;
    assert_eq!(find_target(friendly, &players), Some((0, 0)));
    let mut ffa = rules(TargetingMode::Fov);
    ffa.ffa = true;
    assert_eq!(find_target(ffa, &players), Some((0, 0)));
}

#[test]
fn find_target_needs_a_team_and_a_candidate() {
    let players = vec![player(true, false, 1, 10, vec![pt(1, 1)])];
    let mut spectator = rules(TargetingMode::Fov);
    spectator.local_in_team = false;
    assert_eq!(find_target(spectator, &players), None);
    assert_eq!(find_target(rules(TargetingMode::Fov), &[]), None);
    let teammates = vec![player(true, true, 1, 10, vec![pt(1, 1)])];
    assert_eq!(find_target(rules(TargetingMode::Fov), &teammates), None);
}

#[test]
fn find_target_keeps_the_first_of_equal_players() {
    let players = vec![
        player(true, false, 1, 10, vec![pt(3, 3)]),
        player(true, false, 1, 10, vec![pt(3, 3)]),
    ];
    assert_eq!(find_target(rules(TargetingMode::Fov), &players), Some((0, 0)));
}

fn bone(usable: bool, fov: u32) -> BonePoint {
    BonePoint { usable, fov }
}

fn trigger_target(valid: bool, same_team: bool, bones: Vec<BonePoint>) -> TriggerTarget {
    TriggerTarget { valid, same_team, bones }
}

#[test]
fn trigger_prefers_the_player_under_the_crosshair() {
    let crosshair = Some(trigger_target(true, false, vec![bone(true, 9), bone(true, 7), bone(false, 1)]));
    let players = vec![trigger_target(true, false, vec![bone(true, 1)])];
    assert_eq!(
        pick_trigger_target(&crosshair, &players, false, true, 100),
        Some(TriggerChoice { source: TriggerSource::Crosshair, bone: 1, fov: 7 })
    );
}

#[test]
fn trigger_assist_picks_the_closest_enemy_in_reach() {
    let teammate = Some(trigger_target(true, true, vec![bone(true, 1)]));
    let players = vec![
        trigger_target(true, false, vec![bone(true, 50)]),
        trigger_target(true, true, vec![bone(true, 2)]),
        trigger_target(true, false, vec![bone(false, 3), bone(true, 8)]),
        trigger_target(true, false, vec![bone(true, 8)]),
        trigger_target(false, false, vec![bone(true, 1)]),
    ];
    assert_eq!(
        pick_trigger_target(&teammate, &players, false, true, 20),
        Some(TriggerChoice { source: TriggerSource::Player(2), bone: 1, fov: 8 })
    );
    assert_eq!(pick_trigger_target(&teammate, &players, false, false, 20), None);
    assert_eq!(pick_trigger_target(&None, &players, false, true, 5), None);
    assert_eq!(
        pick_trigger_target(&teammate, &players, true, true, 20),
        Some(TriggerChoice { source: TriggerSource::Crosshair, bone: 0, fov: 1 })
    );
}

#[test]
fn trigger_ignores_bones_at_the_ceiling() {
    let crosshair = Some(trigger_target(true, false, vec![bone(true, FOV_CEILING)]));
    assert_eq!(pick_trigger_target(&crosshair, &[], false, false, 0), None);
}

#[test]
fn trigger_decision_aims_and_fires_by_range() {
    let crosshair = TriggerChoice { source: TriggerSource::Crosshair, bone: 0, fov: 30 };
    let assisted = TriggerChoice { source: TriggerSource::Player(0), bone: 0, fov: 30 };
    assert_eq!(trigger_decision(&crosshair, false, 10, 5), TriggerDecision { aim: false, fire: true });
    assert_eq!(trigger_decision(&assisted, true, 40, 20), TriggerDecision { aim: true, fire: false });
    assert_eq!(trigger_decision(&assisted, true, 40, 30), TriggerDecision { aim: true, fire: true });
    assert_eq!(trigger_decision(&assisted, false, 40, 30), TriggerDecision { aim: false, fire: false });
}

#[test]
fn trigger_checks_and_bones() {
    assert!(checks_pass(true, false, true, true, true, true, false));
    assert!(!checks_pass(true, true, false, false, false, false, false));
    assert!(!checks_pass(false, false, true, true, false, false, false));
    assert!(checks_pass(false, false, true, false, false, false, false));
    assert!(!checks_pass(false, false, false, false, false, true, true));
    assert_eq!(trigger_bones(true), vec![Bones::Head]);
    assert_eq!(
        trigger_bones(false),
        vec![Bones::Head, Bones::Neck, Bones::Spine3, Bones::Spine1, Bones::Hip]
    );
}

fn aim(bone: Bones, visible: bool, fov: u32, fov_limit: u32) -> BoneAim {
    BoneAim { bone, visible, fov, fov_limit }
}

#[test]
fn aim_bone_prefers_prioritized_bones() {
    let allowed = [Bones::Head, Bones::Neck, Bones::Spine1];
    let prioritized = [aim(Bones::Head, true, 9, 20), aim(Bones::Neck, false, 4, 20)];
    let all = [aim(Bones::Head, true, 9, 20), aim(Bones::Neck, false, 4, 20), aim(Bones::Spine1, true, 2, 20)];
    assert_eq!(best_aim_bone(&prioritized, &all, &allowed, false), Some((true, 1)));
    assert_eq!(best_aim_bone(&prioritized, &all, &allowed, true), Some((true, 0)));
    let hidden = [aim(Bones::Head, false, 9, 20)];
    assert_eq!(best_aim_bone(&hidden, &all, &allowed, true), Some((false, 2)));
    let not_allowed = [aim(Bones::Hip, true, 1, 20)];
    assert_eq!(best_aim_bone(&not_allowed, &not_allowed, &allowed, false), None);
    let too_far = [aim(Bones::Head, true, 21, 20), aim(Bones::Head, true, AIM_FOV_CEILING, u32::MAX)];
    assert_eq!(best_aim_bone(&too_far, &too_far, &allowed, false), None);
}

#[test]
fn aim_checks_follow_weapon_and_state() {
    assert!(aim_checks_pass(true, WeaponClass::Rifle, true, false, true, true, 2, 1));
    assert!(!aim_checks_pass(true, WeaponClass::Knife, false, false, false, false, 2, 1));
    assert!(!aim_checks_pass(true, WeaponClass::Rifle, true, true, false, false, 2, 1));
    assert!(!aim_checks_pass(true, WeaponClass::Rifle, false, false, true, false, 2, 1));
    assert!(!aim_checks_pass(true, WeaponClass::Rifle, false, false, false, false, 0, 1));
    assert!(!aim_checks_pass(false, WeaponClass::Rifle, false, false, false, false, 2, 1));
}

#[test]
fn weapon_class_rules() {
    assert!(WeaponClass::Pistol.tap_fire());
    assert!(WeaponClass::Sniper.tap_fire());
    assert!(!WeaponClass::Rifle.tap_fire());
    assert!(WeaponClass::Pistol.aimbot_allowed());
    assert!(!WeaponClass::Grenade.aimbot_allowed());
    assert!(!WeaponClass::Pistol.rcs_allowed());
    assert!(WeaponClass::Smg.rcs_allowed());
    assert_eq!(punch_source(WeaponClass::Sniper, true, 5), PunchSource::Zero);
    assert_eq!(punch_source(WeaponClass::Rifle, true, 2), PunchSource::Previous);
    assert_eq!(punch_source(WeaponClass::Rifle, true, 1), PunchSource::Current);
    assert_eq!(punch_source(WeaponClass::Rifle, false, 5), PunchSource::Current);
    assert_eq!(class_color(WeaponClass::Sniper), [240, 100, 100]);
    assert_eq!(class_color(WeaponClass::Unknown), [255, 255, 255]);
}

#[test]
fn recoil_control_steps() {
    use_rcs(true, true, WeaponClass::Rifle, 3, RcsStep::Compensate);
    use_rcs(true, true, WeaponClass::Rifle, 0, RcsStep::Reset);
    use_rcs(true, true, WeaponClass::Pistol, 3, RcsStep::Skip);
    use_rcs(false, true, WeaponClass::Rifle, 3, RcsStep::Skip);
    use_rcs(true, false, WeaponClass::Rifle, 3, RcsStep::Skip);
    assert!(rcs_moves_mouse(false, true));
    assert!(rcs_moves_mouse(true, false));
    assert!(!rcs_moves_mouse(true, true));
}

fn use_rcs(enabled: bool, local: bool, class: WeaponClass, shots: i32, expected: RcsStep) {
    assert_eq!(rcs_step(enabled, local, class, shots), expected);
}
