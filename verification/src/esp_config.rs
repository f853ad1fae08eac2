//! Display modes of the ESP overlay configuration and their labels.

use vstd::prelude::*;

verus! {

/// How a box or skeleton is colored.
#[derive(Debug, Clone, Copy, PartialEq, Eq, Structural)]
pub enum DrawMode {
    Off,
    Health,
    Color,
    Distance,
    Visibility,
}

/// Whether a box is drawn with gaps at its sides or as a full rectangle.
#[derive(Debug, Clone, Copy, PartialEq, Eq, Structural)]
pub enum BoxMode {
    Gap,
    Full,
}

/// How the player model mesh is drawn.
#[derive(Debug, Clone, Copy, PartialEq, Eq, Structural)]
pub enum ModelEspMode {
    Off,
    Highlight,
    Wireframe,
    Solid,
}

/// How mesh parts that cover blocks from view are treated.
#[derive(Debug, Clone, Copy, PartialEq, Eq, Structural)]
pub enum MeshPartVisibilityMode {
    /// Only the whole player's visibility dims the mesh.
    Off,
    /// Covered parts are darkened.
    Shade,
    /// Covered parts are not drawn.
    Cull,
}

impl DrawMode {
    /// The label shown for this mode.
    pub open spec fn label(self) -> Seq<char> {
        match self {
            DrawMode::Off => "None"@,
            DrawMode::Health => "Health"@,
            DrawMode::Color => "Color"@,
            DrawMode::Distance => "Distance"@,
            DrawMode::Visibility => "Visibility"@,
        }
    }

    /// Every mode, in declaration order.
    pub fn all() -> (r: Vec<DrawMode>)
        ensures
            r@ == seq![
                DrawMode::Off,
                DrawMode::Health,
                DrawMode::Color,
                DrawMode::Distance,
                DrawMode::Visibility,
            ],
    {
        vec![DrawMode::Off, DrawMode::Health, DrawMode::Color, DrawMode::Distance, DrawMode::Visibility]
    }

    pub fn to_string(&self) -> (r: String)
        ensures
            r@ == self.label(),
    {
        match self {
            DrawMode::Off => "None".to_owned(),
            DrawMode::Health => "Health".to_owned(),
            DrawMode::Color => "Color".to_owned(),
            DrawMode::Distance => "Distance".to_owned(),
            DrawMode::Visibility => "Visibility".to_owned(),
        }
    }
}

impl BoxMode {
    /// The label shown for this mode.
    pub open spec fn label(self) -> Seq<char> {
        match self {
            BoxMode::Gap => "Gap"@,
            BoxMode::Full => "Full"@,
        }
    }

    /// Every mode, in declaration order.
    pub fn all() -> (r: Vec<BoxMode>)
        ensures
            r@ == seq![BoxMode::Gap, BoxMode::Full],
    {
        vec![BoxMode::Gap, BoxMode::Full]
    }

    pub fn to_string(&self) -> (r: String)
        ensures
            r@ == self.label(),
    {
        match self {
            BoxMode::Gap => "Gap".to_owned(),
            BoxMode::Full => "Full".to_owned(),
        }
    }
}

impl ModelEspMode {
    /// The label shown for this mode.
    pub open spec fn label(self) -> Seq<char> {
        match self {
            ModelEspMode::Off => "Off"@,
            ModelEspMode::Highlight => "Highlight"@,
            ModelEspMode::Wireframe => "Wireframe"@,
            ModelEspMode::Solid => "Solid"@,
        }
    }

    /// Every mode, in declaration order.
    pub fn all() -> (r: Vec<ModelEspMode>)
        ensures
            r@ == seq![
                ModelEspMode::Off,
                ModelEspMode::Highlight,
                ModelEspMode::Wireframe,
                ModelEspMode::Solid,
            ],
    {
        vec![ModelEspMode::Off, ModelEspMode::Highlight, ModelEspMode::Wireframe, ModelEspMode::Solid]
    }

    pub fn to_string(&self) -> (r: String)
        ensures
            r@ == self.label(),
    {
        match self {
            ModelEspMode::Off => "Off".to_owned(),
            ModelEspMode::Highlight => "Highlight".to_owned(),
            ModelEspMode::Wireframe => "Wireframe".to_owned(),
            ModelEspMode::Solid => "Solid".to_owned(),
        }
    }
}

impl MeshPartVisibilityMode {
    /// The label shown for this mode.
    pub open spec fn label(self) -> Seq<char> {
        match self {
            MeshPartVisibilityMode::Off => "Off"@,
            MeshPartVisibilityMode::Shade => "Shade"@,
            MeshPartVisibilityMode::Cull => "Cull"@,
        }
    }

    /// Every mode, in declaration order.
    pub fn all() -> (r: Vec<MeshPartVisibilityMode>)
        ensures
            r@ == seq![
                MeshPartVisibilityMode::Off,
                MeshPartVisibilityMode::Shade,
                MeshPartVisibilityMode::Cull,
            ],
    {
        vec![MeshPartVisibilityMode::Off, MeshPartVisibilityMode::Shade, MeshPartVisibilityMode::Cull]
    }

    pub fn to_string(&self) -> (r: String)
        ensures
            r@ == self.label(),
    {
        match self {
            MeshPartVisibilityMode::Off => "Off".to_owned(),
            MeshPartVisibilityMode::Shade => "Shade".to_owned(),
            MeshPartVisibilityMode::Cull => "Cull".to_owned(),
        }
    }
}

/// Distinct draw modes have distinct labels.
pub proof fn lemma_draw_mode_labels_distinct(a: DrawMode, b: DrawMode)
    requires
        a != b,
    ensures
        a.label() != b.label(),
{
    reveal_strlit("None");
    reveal_strlit("Health");
    reveal_strlit("Color");
    reveal_strlit("Distance");
    reveal_strlit("Visibility");
    assert(a.label().len() != b.label().len() || a.label()[0] != b.label()[0]);
}


/// Which configured color an ESP feature draws a player in.
#[derive(Debug, Clone, Copy, PartialEq, Eq, Structural)]
pub enum ColorSource {
    /// The bomb carrier's highlight color.
    C4Carrier,
    /// The color the feature computes from health.
    Health,
    Ally,
    Enemy,
    Visible,
    Hidden,
    /// The gradient from the near to the far color, by distance.
    DistanceGradient,
}

/// The bomb carrier's highlight, when it is on, wins while the carrier is
/// visible; otherwise the mode decides: health for `Off` and `Health`, team
/// for `Color`, visibility for `Visibility`, distance for `Distance`.
pub open spec fn spec_color_source(mode: DrawMode, c4_highlight: bool, has_bomb: bool, visible: bool, same_team: bool) -> ColorSource {
    if c4_highlight && has_bomb && visible {
        ColorSource::C4Carrier
    } else {
        match mode {
            DrawMode::Off | DrawMode::Health => ColorSource::Health,
            DrawMode::Color => if same_team {
                ColorSource::Ally
            } else {
                ColorSource::Enemy
            },
            DrawMode::Visibility => if visible {
                ColorSource::Visible
            } else {
                ColorSource::Hidden
            },
            DrawMode::Distance => ColorSource::DistanceGradient,
        }
    }
}

pub fn color_source(mode: DrawMode, c4_highlight: bool, has_bomb: bool, visible: bool, same_team: bool) -> (r: ColorSource)
    ensures
        r == spec_color_source(mode, c4_highlight, has_bomb, visible, same_team),
{
    if c4_highlight && has_bomb && visible {
        return ColorSource::C4Carrier;
    }
    match mode {
        DrawMode::Off | DrawMode::Health => ColorSource::Health,
        DrawMode::Color => {
            if same_team {
                ColorSource::Ally
            } else {
                ColorSource::Enemy
            }
        },
        DrawMode::Visibility => {
            if visible {
                ColorSource::Visible
            } else {
                ColorSource::Hidden
            }
        },
        DrawMode::Distance => ColorSource::DistanceGradient,
    }
}

} // verus!
