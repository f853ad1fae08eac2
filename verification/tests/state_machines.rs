use deadlocked::game_data::{on_playing_team, PlayerRole, PlayerSlot, TEAM_CT, TEAM_T};
use deadlocked::counter_strafe::{CounterStrafe, Drift, Motion, MovementKey};
use deadlocked::entities::{
    check_hotkey, pick_grenade_spot, BaseEntity, Chicken, EspToggle, GrenadeAlign, GrenadeSpot, Input,
    KeyMode, SoundType, GRENADE_MAX_DISTANCE, MAX_KEY,
};
use deadlocked::mesh_state::{MeshCache, PlayerMeshState};

#[test]
fn counter_strafe_taps_the_opposite_keys() {
    let mut cs = CounterStrafe::new();
    let pressed = cs.on_shot(true, 1000, 30, Motion::Keys { w: true, a: false, s: false, d: true });
    assert_eq!(pressed, vec![MovementKey::S, MovementKey::A]);
    assert_eq!(cs.release_pending(1029), vec![]);
    assert_eq!(cs.release_pending(1030), vec![MovementKey::A, MovementKey::S]);
    assert_eq!(cs.release_pending(5000), vec![]);
}

#[test]
fn counter_strafe_waits_between_taps_and_clamps_the_tap() {
    let mut cs = CounterStrafe::new();
    let first = cs.on_shot(true, 1000, 1, Motion::Keys { w: false, a: true, s: false, d: false });
    assert_eq!(first, vec![MovementKey::D]);
    let too_soon = cs.on_shot(true, 1079, 1, Motion::Keys { w: true, a: false, s: false, d: false });
    assert!(too_soon.is_empty());
    assert_eq!(cs.release_pending(1004), vec![]);
    assert_eq!(cs.release_pending(1005), vec![MovementKey::D]);
    let later = cs.on_shot(true, 1080, 500, Motion::Keys { w: true, a: false, s: false, d: false });
    assert_eq!(later, vec![MovementKey::S]);
    assert_eq!(cs.release_pending(1139), vec![]);
    assert_eq!(cs.release_pending(1140), vec![MovementKey::S]);
}

#[test]
fn counter_strafe_drift_and_disabled() {
    let mut cs = CounterStrafe::new();
    assert!(cs.on_shot(false, 10, 20, Motion::Keys { w: true, a: true, s: true, d: true }).is_empty());
    assert!(cs.on_shot(true, 10, 20, Motion::Still).is_empty());
    let pressed = cs.on_shot(
        true,
        10,
        20,
        Motion::Drifting { right: Drift::Negative, forward: Drift::Positive },
    );
    assert_eq!(
        pressed,
        vec![MovementKey::D, MovementKey::A, MovementKey::S, MovementKey::W]
    );
    assert_eq!(
        cs.release_pending(30),
        vec![MovementKey::W, MovementKey::A, MovementKey::S, MovementKey::D]
    );
}

#[test]
fn hotkeys_hold_and_toggle() {
    let mut active = false;
    assert!(check_hotkey(KeyMode::Hold, true, false, &mut active));
    assert!(!active);
    assert!(check_hotkey(KeyMode::Toggle, false, true, &mut active));
    assert!(active);
    assert!(check_hotkey(KeyMode::Toggle, true, false, &mut active));
    assert!(!check_hotkey(KeyMode::Toggle, true, true, &mut active));

    let mut esp = EspToggle::default();
    assert!(esp.active);
    assert!(esp.enabled(true));
    assert!(!esp.enabled(false));
    esp.update(false, true);
    assert!(esp.active);
    esp.update(true, true);
    assert!(!esp.active);
    esp.update(true, false);
    assert!(!esp.active);
}

#[test]
fn key_state_bits() {
    let mut input = Input::new();
    assert!(!input.is_key_pressed(0));
    let mut state = vec![0u8; MAX_KEY / 8];
    state[1] = 0b0000_0100;
    input.update(state.clone());
    assert!(input.is_key_pressed(10));
    assert!(input.key_just_pressed(10));
    assert!(!input.is_key_pressed(9));
    input.update(state);
    assert!(input.is_key_pressed(10));
    assert!(!input.key_just_pressed(10));
    assert!(!input.is_key_pressed(MAX_KEY));
    input.update(vec![0xFF]);
    assert!(input.is_key_pressed(7));
    assert!(!input.is_key_pressed(8));
}

#[test]
fn entity_handles() {
    let chicken = Chicken::new(0x40);
    assert_eq!(chicken.controller(), 0x40);
    assert_eq!(chicken, Chicken::new(0x40));
    let entity = BaseEntity::new(0x1000);
    assert_eq!(entity.handle(), 0x1000);
    assert_eq!(entity.add(0x20), 0x1020);
    assert!(!GrenadeAlign::default().is_aligning);
    assert_ne!(SoundType::Footstep, SoundType::Gunshot);
}

#[test]
fn mesh_state_retries() {
    let mut state = PlayerMeshState::new();
    assert!(state.index_attempt_due(100));
    assert!(!state.index_attempt_due(3099));
    assert!(state.index_attempt_due(3100));
    let mut index = std::collections::HashMap::new();
    index.insert(5300u16, "ctm_fbi".to_string());
    state.set_agent_index(index);
    assert!(!state.index_attempt_due(100_000));
    assert_eq!(state.agent_stem(5300).map(String::as_str), Some("ctm_fbi"));
    assert!(state.agent_stem(1).is_none());

    assert!(state.chicken_attempt_due(0));
    assert!(!state.chicken_attempt_due(2999));
    assert!(state.chicken_attempt_due(3000));
    state.chicken_load_result(false);
    assert!(!state.chicken_attempt_due(1_000_000));
}

#[test]
fn grenade_helper_aligns_with_the_nearest_view() {
    let spot = |same_weapon: bool, distance: u32, fov: u32| GrenadeSpot { same_weapon, distance, fov };
    let spots = [
        spot(false, 1, 1),
        spot(true, GRENADE_MAX_DISTANCE + 1, 1),
        spot(true, 10, 50),
        spot(true, 10, 9),
        spot(true, GRENADE_MAX_DISTANCE, 9),
        spot(true, 10, 3),
    ];
    assert_eq!(pick_grenade_spot(&spots, 40), Some(5));
    assert_eq!(pick_grenade_spot(&spots[..5], 40), Some(3));
    assert_eq!(pick_grenade_spot(&spots[..3], 40), None);
    let mut align = GrenadeAlign::default();
    assert_eq!(align.step(true, true, true, true, Some(&spots), 40), Some(5));
    assert!(align.is_aligning);
    assert_eq!(align.step(true, false, true, true, Some(&spots), 40), None);
    assert!(!align.is_aligning);
    assert_eq!(align.step(true, true, true, true, None, 40), None);
    assert_eq!(align.step(true, true, true, false, Some(&spots), 40), None);
    assert_eq!(align.step(true, true, true, true, Some(&spots[..3]), 40), None);
    assert!(!align.is_aligning);
}

#[test]
fn frame_data_sorts_players_and_spectators() {
    use_roles();
    assert_eq!(deadlocked::game_data::spectators(&[Some(5), None, Some(6), Some(5)], 5), vec![0, 3]);
    assert_eq!(deadlocked::game_data::spectators(&[], 5), Vec::<usize>::new());
    assert!(deadlocked::game_data::toggle_shown(KeyMode::Toggle, true));
    assert!(!deadlocked::game_data::toggle_shown(KeyMode::Toggle, false));
    assert!(!deadlocked::game_data::toggle_shown(KeyMode::Hold, true));
}

fn use_roles() {
    use_role_case(false, vec![PlayerRole::Friendly, PlayerRole::Skipped, PlayerRole::Enemy]);
    use_role_case(true, vec![PlayerRole::Enemy, PlayerRole::Skipped, PlayerRole::Enemy]);
}

fn use_role_case(ffa: bool, expected: Vec<PlayerRole>) {
    let players = [
        PlayerSlot { pawn: 1, same_team: true },
        PlayerSlot { pawn: 2, same_team: true },
        PlayerSlot { pawn: 3, same_team: false },
    ];
    assert_eq!(deadlocked::game_data::player_roles(&players, Some(2), ffa), expected);
}

#[test]
fn players_are_drawn_with_their_agent_or_team_fallback() {
    let mut state = PlayerMeshState::new();
    let mut index = std::collections::HashMap::new();
    index.insert(4619u16, "ctm_fbi_variantb".to_string());
    state.set_agent_index(index);
    assert_eq!(state.player_stem(4619, true), "ctm_fbi_variantb");
    assert_eq!(state.player_stem(1, true), "tm_phoenix");
    assert_eq!(state.player_stem(1, false), "ctm_fbi");
}

#[test]
fn mesh_cache_tries_each_stem_once_and_falls_back() {
    let mut cache = MeshCache::new();
    assert!(cache.needs_load("tm_leet_varianta"));
    cache.record_load("tm_leet_varianta", false);
    assert!(!cache.needs_load("tm_leet_varianta"));
    assert_eq!(cache.render_stem("tm_leet_varianta", "tm_phoenix"), "tm_phoenix");
    assert!(cache.needs_load("tm_phoenix"));
    cache.record_load("tm_phoenix", true);
    assert!(cache.loaded("tm_phoenix"));
    assert!(!cache.needs_load("tm_phoenix"));
    assert_eq!(cache.render_stem("tm_phoenix", "ctm_sas"), "tm_phoenix");
    assert!(!cache.loaded("tm_leet_varianta"));
}

#[test]
fn only_terrorists_and_counter_terrorists_are_in_game() {
    assert!(on_playing_team(TEAM_T));
    assert!(on_playing_team(TEAM_CT));
    assert!(!on_playing_team(0));
    assert!(!on_playing_team(1));
    assert!(!on_playing_team(4));
}
