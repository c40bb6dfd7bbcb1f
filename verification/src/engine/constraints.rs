use vstd::prelude::*;
use crate::text::str_eq;

verus! {

/// The element property that a procedural modifier drives.
#[derive(Debug, Clone, Copy, PartialEq, Eq, Structural)]
pub enum ProceduralTarget {
    PositionX,
    PositionY,
    Rotation,
    ScaleX,
    ScaleY,
}

/// The property name of a target.
pub open spec fn target_name(t: ProceduralTarget) -> Seq<char> {
    match t {
        ProceduralTarget::PositionX => "position.x"@,
        ProceduralTarget::PositionY => "position.y"@,
        ProceduralTarget::Rotation => "rotation"@,
        ProceduralTarget::ScaleX => "scale.x"@,
        ProceduralTarget::ScaleY => "scale.y"@,
    }
}

/// The target named `s`, if any.
pub open spec fn target_of(s: Seq<char>) -> Option<ProceduralTarget> {
    if s == "position.x"@ {
        Some(ProceduralTarget::PositionX)
    } else if s == "position.y"@ {
        Some(ProceduralTarget::PositionY)
    } else if s == "rotation"@ {
        Some(ProceduralTarget::Rotation)
    } else if s == "scale.x"@ {
        Some(ProceduralTarget::ScaleX)
    } else if s == "scale.y"@ {
        Some(ProceduralTarget::ScaleY)
    } else {
        None
    }
}

impl ProceduralTarget {
    /// The target for a property name; None for any other text.
    pub fn from_str(s: &str) -> (r: Option<Self>)
        ensures
            r == target_of(s@),
    {
        if str_eq(s, "position.x") {
            Some(ProceduralTarget::PositionX)
        } else if str_eq(s, "position.y") {
            Some(ProceduralTarget::PositionY)
        } else if str_eq(s, "rotation") {
            Some(ProceduralTarget::Rotation)
        } else if str_eq(s, "scale.x") {
            Some(ProceduralTarget::ScaleX)
        } else if str_eq(s, "scale.y") {
            Some(ProceduralTarget::ScaleY)
        } else {
            None
        }
    }

    /// Every target with its property name.
    pub fn all() -> (r: Vec<(&'static str, ProceduralTarget)>)
        ensures
            r@.len() == 5,
            r@[0].0@ == "position.x"@ && r@[0].1 == ProceduralTarget::PositionX,
            r@[1].0@ == "position.y"@ && r@[1].1 == ProceduralTarget::PositionY,
            r@[2].0@ == "rotation"@ && r@[2].1 == ProceduralTarget::Rotation,
            r@[3].0@ == "scale.x"@ && r@[3].1 == ProceduralTarget::ScaleX,
            r@[4].0@ == "scale.y"@ && r@[4].1 == ProceduralTarget::ScaleY,
            forall|i: int| 0 <= i < 5 ==> (#[trigger] r@[i]).0@ == target_name(r@[i].1),
    {
        let mut v: Vec<(&'static str, ProceduralTarget)> = Vec::new();
        v.push(("position.x", ProceduralTarget::PositionX));
        v.push(("position.y", ProceduralTarget::PositionY));
        v.push(("rotation", ProceduralTarget::Rotation));
        v.push(("scale.x", ProceduralTarget::ScaleX));
        v.push(("scale.y", ProceduralTarget::ScaleY));
        v
    }
}

/// A target's name reads back as that target, and every name that reads as a target
/// is that target's name.
pub proof fn lemma_target_round_trip(t: ProceduralTarget, s: Seq<char>)
    ensures
        target_of(target_name(t)) == Some(t),
        target_of(s) matches Some(u) ==> target_name(u) == s,
{
    reveal_strlit("position.x");
    reveal_strlit("position.y");
    reveal_strlit("rotation");
    reveal_strlit("scale.x");
    reveal_strlit("scale.y");
    assert("position.x"@[9] != "position.y"@[9]);
    assert("scale.x"@[6] != "scale.y"@[6]);
    assert("position.x"@.len() == 10 && "position.y"@.len() == 10 && "rotation"@.len() == 8);
    assert("scale.x"@.len() == 7 && "scale.y"@.len() == 7);
}

} // verus!
