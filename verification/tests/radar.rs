use deadlocked::messages::RadarStatus;
use deadlocked::radar::{normalize_url, radar_page_url, registered_session, RadarAction, RadarLink};
use deadlocked::session_id::{id_text, parse_id};
use deadlocked::sessions::session_of;
use deadlocked::sessions::{accept_frame, accept_version, Sessions, MAX_AGE_MS};

#[test]
fn radar_url_drops_scheme_spaces_and_trailing_slashes() {
    assert_eq!(normalize_url(" https://radar.example:6460/ "), "radar.example:6460");
    assert_eq!(normalize_url("http://10.0.0.2:6460//"), "10.0.0.2:6460");
    assert_eq!(normalize_url("radar.example"), "radar.example");
    assert_eq!(normalize_url("   "), "");
    assert_eq!(normalize_url("ftp://host/"), "ftp://host");
}

#[test]
fn radar_reports_changed_address_and_disabling() {
    let mut link = RadarLink::new();
    assert_eq!(link.apply_config("host:1", true), vec![RadarStatus::Disconnected]);
    assert_eq!(link.tick(), RadarAction::Connect);
    assert_eq!(link.link_result(true), Some(RadarStatus::Connected));
    assert_eq!(link.tick(), RadarAction::Send);
    assert_eq!(link.link_result(true), None);
    // The same address, written another way, keeps the connection.
    assert_eq!(link.apply_config("http://host:1/", true), Vec::<RadarStatus>::new());
    assert_eq!(link.tick(), RadarAction::Send);
    // Disabling drops the connection.
    assert_eq!(link.apply_config("host:1", false), vec![RadarStatus::Disabled]);
    assert_eq!(link.tick(), RadarAction::Idle);
    // Another address, disabled: both statuses, in order.
    assert_eq!(
        link.apply_config("other:2", false),
        vec![RadarStatus::Disconnected, RadarStatus::Disabled]
    );
}

#[test]
fn radar_failure_drops_the_connection() {
    let mut link = RadarLink::new();
    link.apply_config("host:1", true);
    assert_eq!(link.tick(), RadarAction::Connect);
    assert_eq!(link.link_result(false), Some(RadarStatus::FailedToConnect));
    assert_eq!(link.tick(), RadarAction::Connect);
    assert_eq!(link.link_result(true), Some(RadarStatus::Connected));
    assert_eq!(link.link_result(false), Some(RadarStatus::FailedToConnect));
    assert_eq!(link.tick(), RadarAction::Connect);
}

#[test]
fn sessions_keep_data_of_registered_games_only() {
    let mut s: Sessions<u32> = Sessions::new();
    assert_eq!(s.data(7), None);
    s.update(7, 42, 0, 100);
    assert_eq!(s.data(7), Some(&0));
    s.update(7, 42, 0, 200);
    assert_eq!(s.data(7), Some(&42));
    s.register(9, 0, 300);
    assert_eq!(s.data(9), Some(&0));
    s.end(7);
    assert_eq!(s.data(7), None);
    assert_eq!(s.data(9), Some(&0));
}

#[test]
fn sessions_expire_after_a_minute_without_update() {
    let mut s: Sessions<u32> = Sessions::new();
    s.register(1, 10, 1000);
    s.register(2, 20, 5000);
    s.clean(1000 + MAX_AGE_MS - 1);
    assert_eq!(s.data(1), Some(&10));
    s.clean(1000 + MAX_AGE_MS);
    assert_eq!(s.data(1), None);
    assert_eq!(s.data(2), Some(&20));
    s.clean(5000 + MAX_AGE_MS);
    assert_eq!(s.data(2), None);
    assert_eq!(MAX_AGE_MS, 60000);
}

#[test]
fn session_ids_are_hyphenated_and_read_back() {
    let id = 0x67e5504410b1426f9247bb680e5fe0c8u128;
    assert_eq!(id_text(id), "67e55044-10b1-426f-9247-bb680e5fe0c8");
    assert_eq!(parse_id(&id_text(id)), Some(id));
    assert_eq!(parse_id("67E55044-10B1-426F-9247-BB680E5FE0C8"), Some(id));
    assert_eq!(parse_id("67e5504410b1426f9247bb680e5fe0c8"), Some(id));
    assert_eq!(parse_id("{67e55044-10b1-426f-9247-bb680e5fe0c8}"), Some(id));
    assert_eq!(parse_id("not an id"), None);
    assert_eq!(id_text(0), "00000000-0000-0000-0000-000000000000");
    assert_eq!(parse_id(&id_text(u128::MAX)), Some(u128::MAX));
    assert_eq!(registered_session("67e55044-10b1-426f-9247-bb680e5fe0c8"), Some(id));
    assert_eq!(session_of("67e55044-10b1-426f-9247-bb680e5fe0c8"), Some(id));
}

#[test]
fn server_answers_a_registration_with_the_id() {
    let mut s: Sessions<u32> = Sessions::new();
    let text = s.register_game(5, 0, 10);
    assert_eq!(text, "00000000-0000-0000-0000-000000000005");
    assert_eq!(s.data(session_of(&text).unwrap()), Some(&0));
}

#[test]
fn radar_page_link_encodes_the_address() {
    assert_eq!(
        radar_page_url("10.0.0.2:6460", 1),
        "https://radar.avitrano.com/?url=10.0.0.2%3A6460&game=00000000-0000-0000-0000-000000000001"
    );
    assert_eq!(
        radar_page_url("a b/c~d", 0),
        "https://radar.avitrano.com/?url=a%20b%2Fc~d&game=00000000-0000-0000-0000-000000000000"
    );
}

#[test]
fn server_checks_version_and_frame_size() {
    assert!(accept_version(3, 3));
    assert!(!accept_version(2, 3));
    assert!(accept_frame(1024, 1024));
    assert!(accept_frame(0, 1024));
    assert!(!accept_frame(1025, 1024));
}
