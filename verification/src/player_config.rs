//! Player ESP options of the standalone overlay: draw modes and which players,
//! by visibility, are drawn.

use vstd::prelude::*;

verus! {

/// How a box or skeleton is colored.
#[derive(Debug, Clone, Copy, PartialEq, Eq, Structural)]
pub enum DrawMode {
    Off,
    Health,
    Color,
}

/// Whether a box is drawn with gaps at its sides or as a full rectangle.
#[derive(Debug, Clone, Copy, PartialEq, Eq, Structural)]
pub enum BoxMode {
    Gap,
    Full,
}

/// Which players are drawn, by whether they are visible.
#[derive(Debug, Clone, Copy, PartialEq, Eq, Structural)]
pub enum VisibilityMode {
    All,
    VisibleOnly,
    InvisibleOnly,
}

/// The part of a line between two points that is drawn: the whole line, the
/// half at its start, or the half at its end.
#[derive(Debug, Clone, Copy, PartialEq, Eq, Structural)]
pub enum Segment {
    Whole,
    StartHalf,
    EndHalf,
}

impl VisibilityMode {
    /// Whether a player with the given visibility is drawn in this mode.
    pub open spec fn spec_includes(self, visible: bool) -> bool {
        match self {
            VisibilityMode::All => true,
            VisibilityMode::VisibleOnly => visible,
            VisibilityMode::InvisibleOnly => !visible,
        }
    }

    pub fn includes(self, visible: bool) -> (r: bool)
        ensures
            r == self.spec_includes(visible),
    {
        match self {
            VisibilityMode::All => true,
            VisibilityMode::VisibleOnly => visible,
            VisibilityMode::InvisibleOnly => !visible,
        }
    }

    /// Which part of a line whose ends have the given visibility is drawn:
    /// the halves at the included ends, nothing when neither end is included.
    pub fn visible_segment(self, start_visible: bool, end_visible: bool) -> (r: Option<Segment>)
        ensures
            self == VisibilityMode::All ==> r == Some(Segment::Whole),
            r == (match (self.spec_includes(start_visible), self.spec_includes(end_visible)) {
                (true, true) => Some(Segment::Whole),
                (true, false) => Some(Segment::StartHalf),
                (false, true) => Some(Segment::EndHalf),
                (false, false) => None,
            }),
    {
        if self == VisibilityMode::All {
            return Some(Segment::Whole);
        }
        match (self.includes(start_visible), self.includes(end_visible)) {
            (true, true) => Some(Segment::Whole),
            (true, false) => Some(Segment::StartHalf),
            (false, true) => Some(Segment::EndHalf),
            (false, false) => None,
        }
    }
}

/// Exactly one of the two restricted modes draws any given player.
pub proof fn lemma_restricted_modes_partition(visible: bool)
    ensures
        VisibilityMode::VisibleOnly.spec_includes(visible) != VisibilityMode::InvisibleOnly.spec_includes(
            visible,
        ),
        VisibilityMode::All.spec_includes(visible),
{
}

} // verus!
