use deadlocked::bhop::{Bhop, StrafeKeys, Turn};
use deadlocked::bvh::{hull_face_vertices, HalfEdge};
use deadlocked::triggerbot::{press_duration, ShotAction, TriggerMode, Triggerbot};

#[test]
fn triggerbot_schedules_and_fires_one_shot_at_a_time() {
    let mut bot = Triggerbot::new();
    assert!(bot.begin_tick(true, TriggerMode::Hold, true, false, false, 100));
    bot.schedule_shot(100, 20, true, 100);
    assert!(!bot.begin_tick(true, TriggerMode::Hold, true, false, false, 110));
    assert_eq!(bot.shoot(119), ShotAction { press: false, release: false });
    assert_eq!(bot.shoot(120), ShotAction { press: true, release: false });
    assert_eq!(bot.shoot(144), ShotAction { press: false, release: false });
    assert_eq!(bot.shoot(145), ShotAction { press: false, release: true });
    assert!(!bot.begin_tick(true, TriggerMode::Hold, true, false, false, 160));
    assert_eq!(bot.shoot(161), ShotAction { press: false, release: false });
    assert!(bot.begin_tick(true, TriggerMode::Hold, true, false, false, 161));
}

#[test]
fn triggerbot_modes() {
    let mut bot = Triggerbot::new();
    assert!(!bot.begin_tick(false, TriggerMode::Toggle, true, true, true, 0));
    assert!(!bot.active);
    assert!(bot.begin_tick(true, TriggerMode::Toggle, false, true, false, 0));
    assert!(bot.active);
    assert!(bot.begin_tick(true, TriggerMode::Toggle, false, false, false, 0));
    assert!(!bot.begin_tick(true, TriggerMode::Toggle, true, true, false, 0));
    assert!(!bot.begin_tick(true, TriggerMode::Hold, false, false, true, 0));
    assert!(bot.begin_tick(true, TriggerMode::Shoot, false, false, true, 0));
    assert!(!bot.begin_tick(true, TriggerMode::Shoot, true, false, false, 0));
}

#[test]
fn triggerbot_press_durations() {
    assert_eq!(press_duration(true, 0), 5);
    assert_eq!(press_duration(true, 100), 25);
    assert_eq!(press_duration(false, 100), 100);
    assert_eq!(press_duration(false, 1000), 250);
    let mut bot = Triggerbot::new();
    bot.schedule_shot(0, 0, false, 1000);
    assert_eq!(bot.shoot(0), ShotAction { press: true, release: false });
    assert_eq!(bot.shoot(250), ShotAction { press: false, release: true });
    assert!(!bot.begin_tick(true, TriggerMode::Shoot, false, false, true, 257));
    assert!(bot.begin_tick(true, TriggerMode::Shoot, false, false, true, 258));
}

#[test]
fn bhop_jumps_and_strafes() {
    let mut bhop = Bhop::default();
    for _ in 0..5 {
        assert!(!bhop.jump());
    }
    assert!(bhop.jump());
    assert!(!bhop.jump());
    assert_eq!(bhop.stop_strafing(), StrafeKeys::Keep);
    assert_eq!(bhop.strafe(Turn::Left), StrafeKeys::HoldA);
    assert_eq!(bhop.strafe(Turn::Straight), StrafeKeys::Keep);
    assert_eq!(bhop.stop_strafing(), StrafeKeys::ReleaseBoth);
    assert_eq!(bhop.stop_strafing(), StrafeKeys::Keep);
    assert_eq!(bhop.strafe(Turn::Right), StrafeKeys::HoldD);
}

fn edge(next: u8, origin: u8) -> HalfEdge {
    HalfEdge { next, origin }
}

#[test]
fn hull_faces_walk_their_edge_loop() {
    let edges = vec![edge(1, 10), edge(2, 11), edge(0, 12), edge(4, 0), edge(3, 1)];
    assert_eq!(hull_face_vertices(&edges, 0, 20), Some(vec![10, 11, 12]));
    assert_eq!(hull_face_vertices(&edges, 1, 20), Some(vec![11, 12, 10]));
    assert_eq!(hull_face_vertices(&edges, 0, 12), None);
    assert_eq!(hull_face_vertices(&edges, 3, 20), None);
    assert_eq!(hull_face_vertices(&edges, 5, 20), None);
    let rho = vec![edge(1, 0), edge(2, 1), edge(1, 2)];
    assert_eq!(hull_face_vertices(&rho, 0, 5), None);
    let broken = vec![edge(1, 0), edge(9, 1)];
    assert_eq!(hull_face_vertices(&broken, 0, 5), None);
}

#[test]
fn bhop_scrolls_one_or_two_notches() {
    use_scroll(0, 1);
    use_scroll(7, 2);
    use_scroll(-3, 2);
    use_scroll(-4, 1);
    use_scroll(i32::MIN, 1);
    use_scroll(i32::MAX, 2);
    for _ in 0..100 {
        let n = deadlocked::bhop::jump_scroll();
        assert!(n == 1 || n == 2);
    }
}

fn use_scroll(random: i32, expected: i32) {
    assert_eq!(deadlocked::bhop::scroll_notches(random), expected);
}
