use vstd::prelude::*;
use crate::model::sprite::{Identified, new_uuid, views_of, snapshot_all};
use crate::state::history::Snapshot;

verus! {

/// A named point in time of an animation. (Its time is kept by the editor.)
#[derive(Debug, Clone)]
pub struct EventMarker {
    pub id: String,
    pub name: String,
}

/// An event marker's content.
pub struct EventMarkerView {
    pub id: Seq<char>,
    pub name: Seq<char>,
}

impl View for EventMarker {
    type V = EventMarkerView;

    open spec fn view(&self) -> EventMarkerView {
        EventMarkerView { id: self.id@, name: self.name@ }
    }
}

impl Snapshot for EventMarker {
    fn snapshot(&self) -> (r: Self) {
        EventMarker { id: self.id.clone(), name: self.name.clone() }
    }
}

impl Identified for EventMarker {
    open spec fn ident(&self) -> Seq<char> {
        self.id@
    }

    fn id_str(&self) -> (r: &str) {
        self.id.as_str()
    }
}

/// An animation sequence: its id, name, whether it loops, and its event markers.
/// (Its duration and pose keyframes are kept by the editor.)
#[derive(Debug, Clone)]
pub struct AnimationSequence {
    pub id: String,
    pub name: String,
    pub looping: bool,
    pub event_markers: Vec<EventMarker>,
}

/// An animation sequence's content.
pub struct SequenceView {
    pub id: Seq<char>,
    pub name: Seq<char>,
    pub looping: bool,
    pub event_markers: Seq<EventMarkerView>,
}

impl View for AnimationSequence {
    type V = SequenceView;

    open spec fn view(&self) -> SequenceView {
        SequenceView { id: self.id@, name: self.name@, looping: self.looping, event_markers: views_of(self.event_markers@) }
    }
}

impl Snapshot for AnimationSequence {
    fn snapshot(&self) -> (r: Self) {
        AnimationSequence {
            id: self.id.clone(),
            name: self.name.clone(),
            looping: self.looping,
            event_markers: snapshot_all(&self.event_markers),
        }
    }
}

impl Identified for AnimationSequence {
    open spec fn ident(&self) -> Seq<char> {
        self.id@
    }

    fn id_str(&self) -> (r: &str) {
        self.id.as_str()
    }
}

impl AnimationSequence {
    /// A new looping sequence with no markers and a fresh id.
    pub fn new(name: String) -> (s: Self)
        ensures
            s.id@.len() == 36,
            s.name == name,
            s.looping,
            s.event_markers@.len() == 0,
    {
        AnimationSequence { id: new_uuid(), name, looping: true, event_markers: Vec::new() }
    }
}

} // verus!
