//! Tabs of the settings window and the colors of its theme.

use vstd::prelude::*;

verus! {

/// The tabs of the settings window.
#[derive(Debug, Clone, Copy, PartialEq, Eq, Structural)]
pub enum Tab {
    Aimbot,
    Player,
    Hud,
    Radar,
    Grenades,
    Unsafe,
    Config,
}

/// Whether the aimbot tab edits the global settings or those of one weapon.
#[derive(Debug, Clone, Copy, PartialEq, Eq, Structural)]
pub enum AimbotTab {
    Global,
    Weapon,
}

/// The theme colors, as red, green and blue components.
pub struct Colors;

impl Colors {
    pub const BACKDROP: [u8; 3] = [24, 24, 28];
    pub const BASE: [u8; 3] = [30, 30, 35];
    pub const HIGHLIGHT: [u8; 3] = [50, 50, 60];
    pub const SUBTEXT: [u8; 3] = [140, 140, 140];
    pub const TEXT: [u8; 3] = [255, 255, 255];
    pub const RED: [u8; 3] = [240, 100, 100];
    pub const ORANGE: [u8; 3] = [240, 140, 90];
    pub const YELLOW: [u8; 3] = [240, 200, 120];
    pub const GREEN: [u8; 3] = [160, 240, 130];
    pub const TEAL: [u8; 3] = [80, 200, 200];
    pub const BLUE: [u8; 3] = [100, 150, 240];
    pub const PURPLE: [u8; 3] = [180, 120, 240];
    /// The accent colors the user can pick, with their names.
    pub const ACCENT_COLORS: [(&'static str, [u8; 3]); 7] = [
        ("Red", Colors::RED),
        ("Orange", Colors::ORANGE),
        ("Yellow", Colors::YELLOW),
        ("Green", Colors::GREEN),
        ("Teal", Colors::TEAL),
        ("Blue", Colors::BLUE),
        ("Purple", Colors::PURPLE),
    ];
}

} // verus!
