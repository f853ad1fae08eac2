use deadlocked::esp_config::{color_source, ColorSource};
use deadlocked::esp_config::{BoxMode, DrawMode, MeshPartVisibilityMode, ModelEspMode};
use deadlocked::gui::{AimbotTab, Colors, Tab};
use deadlocked::messages::{
    is_elf_image, release_status, ApplyStatus, ExtractStatus, GameStatus, RadarStatus, Release,
    ReleaseAsset, UiMessage, UpdateStatus,
};
use deadlocked::player_config::{Segment, VisibilityMode};

/// The drawn part of a line as fractions of its length.
fn segment_range(mode: VisibilityMode, start_visible: bool, end_visible: bool) -> Option<(f32, f32)> {
    mode.visible_segment(start_visible, end_visible).map(|segment| match segment {
        Segment::Whole => (0.0, 1.0),
        Segment::StartHalf => (0.0, 0.5),
        Segment::EndHalf => (0.5, 1.0),
    })
}

#[test]
fn visibility_modes_filter_players() {
    assert!(VisibilityMode::All.includes(true));
    assert!(VisibilityMode::All.includes(false));
    assert!(VisibilityMode::VisibleOnly.includes(true));
    assert!(!VisibilityMode::VisibleOnly.includes(false));
    assert!(!VisibilityMode::InvisibleOnly.includes(true));
    assert!(VisibilityMode::InvisibleOnly.includes(false));

    assert_eq!(
        segment_range(VisibilityMode::VisibleOnly, true, false),
        Some((0.0, 0.5))
    );
    assert_eq!(
        segment_range(VisibilityMode::InvisibleOnly, true, false),
        Some((0.5, 1.0))
    );
    assert_eq!(segment_range(VisibilityMode::VisibleOnly, false, false), None);
}

#[test]
fn whole_segments() {
    assert_eq!(VisibilityMode::All.visible_segment(false, false), Some(Segment::Whole));
    assert_eq!(VisibilityMode::InvisibleOnly.visible_segment(false, false), Some(Segment::Whole));
    assert_eq!(VisibilityMode::InvisibleOnly.visible_segment(true, true), None);
}

#[test]
fn mode_labels() {
    assert_eq!(DrawMode::Off.to_string(), "None");
    assert_eq!(DrawMode::Visibility.to_string(), "Visibility");
    assert_eq!(BoxMode::Gap.to_string(), "Gap");
    assert_eq!(BoxMode::Full.to_string(), "Full");
    assert_eq!(ModelEspMode::Wireframe.to_string(), "Wireframe");
    assert_eq!(MeshPartVisibilityMode::Cull.to_string(), "Cull");
    let labels: Vec<String> = DrawMode::all().iter().map(|m| m.to_string()).collect();
    assert_eq!(labels, vec!["None", "Health", "Color", "Distance", "Visibility"]);
    assert_eq!(ModelEspMode::all().len(), 4);
    assert_eq!(MeshPartVisibilityMode::all(), vec![
        MeshPartVisibilityMode::Off,
        MeshPartVisibilityMode::Shade,
        MeshPartVisibilityMode::Cull
    ]);
    assert_eq!(BoxMode::all(), vec![BoxMode::Gap, BoxMode::Full]);
}

#[test]
fn status_texts_and_defaults() {
    assert_eq!(GameStatus::Working.to_string(), "Working");
    assert_eq!(GameStatus::NotStarted.to_string(), "Not Started");
    assert!(matches!(ExtractStatus::default(), ExtractStatus::Idle));
    assert!(matches!(ApplyStatus::default(), ApplyStatus::Idle));
    assert_eq!(UpdateStatus::default(), UpdateStatus::UpToDate);
    let message = UiMessage::Status(GameStatus::Working);
    assert!(matches!(message, UiMessage::Status(GameStatus::Working)));
    let frame = UiMessage::FrameTime(std::time::Duration::from_millis(16));
    assert!(matches!(frame, UiMessage::FrameTime(d) if d.as_millis() == 16));
    assert_ne!(RadarStatus::Connected, RadarStatus::Disabled);
    assert_eq!(Tab::Aimbot, Tab::Aimbot);
    assert_ne!(AimbotTab::Global, AimbotTab::Weapon);
}

#[test]
fn theme_colors() {
    assert_eq!(Colors::RED, [240, 100, 100]);
    assert_eq!(Colors::BACKDROP, [24, 24, 28]);
    assert_eq!(Colors::ACCENT_COLORS.len(), 7);
    assert_eq!(Colors::ACCENT_COLORS[0], ("Red", Colors::RED));
    assert_eq!(Colors::ACCENT_COLORS[6], ("Purple", [180, 120, 240]));
}

fn release(tag: &str, assets: &[(&str, &str)]) -> Release {
    Release {
        tag_name: tag.to_string(),
        html_url: "https://example.invalid/notes".to_string(),
        assets: assets
            .iter()
            .map(|(name, url)| ReleaseAsset {
                name: name.to_string(),
                browser_download_url: url.to_string(),
            })
            .collect(),
    }
}

#[test]
fn update_check_compares_the_tag_without_its_v() {
    assert_eq!(release_status(release("v1.2.3", &[]), "1.2.3"), UpdateStatus::UpToDate);
    assert_eq!(release_status(release("vv1.2.3", &[]), "1.2.3"), UpdateStatus::UpToDate);
    assert_eq!(release_status(release("1.2.3", &[]), "1.2.3"), UpdateStatus::UpToDate);
    assert_eq!(
        release_status(
            release("v1.3.0", &[("other", "u1"), ("deadlocked", "u2"), ("deadlocked", "u3")]),
            "1.2.3"
        ),
        UpdateStatus::Available {
            version: "v1.3.0".to_string(),
            html_url: "https://example.invalid/notes".to_string(),
            asset_url: Some("u2".to_string()),
        }
    );
    assert_eq!(
        release_status(release("v1.3.0", &[("other", "u1")]), "1.2.3"),
        UpdateStatus::Available {
            version: "v1.3.0".to_string(),
            html_url: "https://example.invalid/notes".to_string(),
            asset_url: None,
        }
    );
}

#[test]
fn elf_magic_check() {
    assert!(is_elf_image(&[0x7f, b'E', b'L', b'F', 2, 1]));
    assert!(is_elf_image(&[0x7f, b'E', b'L', b'F']));
    assert!(!is_elf_image(&[0x7f, b'E', b'L']));
    assert!(!is_elf_image(b"MZ\x90\x00"));
}

#[test]
fn esp_colors_follow_the_draw_mode() {
    use_color(deadlocked::esp_config::DrawMode::Off, false, ColorSource::Health);
    use_color(deadlocked::esp_config::DrawMode::Health, false, ColorSource::Health);
    use_color(deadlocked::esp_config::DrawMode::Color, false, ColorSource::Enemy);
    use_color(deadlocked::esp_config::DrawMode::Visibility, false, ColorSource::Visible);
    use_color(deadlocked::esp_config::DrawMode::Distance, false, ColorSource::DistanceGradient);
    use_color(deadlocked::esp_config::DrawMode::Color, true, ColorSource::C4Carrier);
    assert_eq!(
        color_source(deadlocked::esp_config::DrawMode::Color, true, true, false, true),
        ColorSource::Ally
    );
    assert_eq!(
        color_source(deadlocked::esp_config::DrawMode::Visibility, false, true, false, false),
        ColorSource::Hidden
    );
}

fn use_color(mode: deadlocked::esp_config::DrawMode, bomb: bool, expected: ColorSource) {
    assert_eq!(color_source(mode, true, bomb, true, false), expected);
}
