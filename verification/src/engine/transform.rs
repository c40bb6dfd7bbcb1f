use vstd::prelude::*;
use crate::action_handler::{element_location, find_element_location};
use crate::engine::eraser::{find_id, first_position};
use crate::model::sprite::{Sprite, StrokeElement};
use crate::state::editor::id_views;

verus! {

/// `after` is `before` with element `ei` of layer `li` replaced by `e`, and
/// nothing else changed.
pub open spec fn element_replaced(before: Sprite, after: Sprite, li: int, ei: int, e: StrokeElement) -> bool {
    &&& after.id == before.id
    &&& after.name == before.name
    &&& after.format_version == before.format_version
    &&& after.canvas_width == before.canvas_width
    &&& after.canvas_height == before.canvas_height
    &&& after.background_color_index == before.background_color_index
    &&& after.layer_groups == before.layer_groups
    &&& after.animations == before.animations
    &&& after.reference_images == before.reference_images
    &&& after.layers@.len() == before.layers@.len()
    &&& forall|j: int| 0 <= j < before.layers@.len() && j != li ==> #[trigger] after.layers@[j] == before.layers@[j]
    &&& after.layers@[li].id == before.layers@[li].id
    &&& after.layers@[li].name == before.layers@[li].name
    &&& after.layers@[li].visible == before.layers@[li].visible
    &&& after.layers@[li].locked == before.layers@[li].locked
    &&& after.layers@[li].group_id == before.layers@[li].group_id
    &&& after.layers@[li].socket == before.layers@[li].socket
    &&& after.layers@[li].elements@ == before.layers@[li].elements@.update(ei, e)
}

/// The first element with id `element_id`, borrowed for editing, and the
/// position in it of its first vertex with id `vertex_id`. `None` when no
/// element has that id, or when the first such element has no such vertex.
pub fn find_element_vertex_mut<'a>(sprite: &'a mut Sprite, element_id: &str, vertex_id: &str) -> (r: Option<(&'a mut StrokeElement, usize)>)
    ensures
        match element_location(old(sprite).layers@, element_id@) {
            None => r is None && *final(sprite) == *old(sprite),
            Some((li, ei)) => {
                let e = old(sprite).layers@[li].elements@[ei];
                match first_position(id_views(e.vertex_ids@), vertex_id@) {
                    None => r is None && *final(sprite) == *old(sprite),
                    Some(vi) => r matches Some((m, k)) && k == vi && *m == e
                        && element_replaced(*old(sprite), *final(sprite), li, ei, *final(m)),
                }
            }
        },
{
    match find_element_location(sprite, element_id) {
        None => None,
        Some((li, ei)) => {
            match find_id(&sprite.layers[li].elements[ei].vertex_ids, vertex_id) {
                None => None,
                Some(vi) => Some((&mut sprite.layers[li].elements[ei], vi)),
            }
        }
    }
}

} // verus!
