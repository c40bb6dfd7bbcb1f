use vstd::prelude::*;

verus! {

/// Where the playhead stands, shown by the canvas border and the status bar dot.
#[derive(Debug, Clone, PartialEq, Eq)]
pub enum CanvasAnimState {
    /// No animation selected, or the playhead at frame 0 with no sequence.
    Rest,
    /// The playhead is exactly on the keyframe with this id.
    OnKeyframe(String),
    /// The playhead is between keyframes.
    Interpolated,
}

} // verus!
