use messy_grapefruit::action_handler::{
    Action, Document, HatchPatternEntry, apply_action, commit_stroke_layers, place_erase_result, import_hatch_patterns, remove_hatch_pattern,
    update_hatch_pattern,
    add_palette_color, hatch_import_positions, delete_palette_color, edit_palette_color, find_element_location, import_palette,
    remap_color_index, set_fill_color,
};
use messy_grapefruit::model::project::{EditorPreferences, Palette, PaletteColor};
use messy_grapefruit::state::history::History;
use messy_grapefruit::model::animation::EventMarker;
use messy_grapefruit::model::sprite::{ReferenceImage, GradientAlignment, GradientFill, GradientType, Layer, Sprite, StrokeElement};

fn element(id: &str, stroke: u8, fill: u8) -> StrokeElement {
    StrokeElement {
        id: id.to_string(),
        name: None,
        vertex_ids: vec!["v0".to_string(), "v1".to_string()],
        closed: true,
        stroke_color_index: stroke,
        fill_color_index: fill,
        curve_mode: false,
        gradient_fill: None,
        hatch_fill_id: None,
    }
}

fn sprite() -> Sprite {
    let mut s = Sprite::new("S".to_string(), 8, 8);
    s.layers[0].elements.push(element("a", 1, 2));
    let mut l = Layer::new("L2".to_string());
    l.elements.push(element("b", 3, 1));
    l.elements.push(element("c", 2, 0));
    s.layers.push(l);
    s.background_color_index = 3;
    s
}

#[test]
fn remap_values() {
    assert_eq!(remap_color_index(5, 5), 0);
    assert_eq!(remap_color_index(6, 5), 5);
    assert_eq!(remap_color_index(4, 5), 4);
    assert_eq!(remap_color_index(0, 5), 0);
}

#[test]
fn locate_elements() {
    let s = sprite();
    assert_eq!(find_element_location(&s, "a"), Some((0, 0)));
    assert_eq!(find_element_location(&s, "c"), Some((1, 1)));
    assert_eq!(find_element_location(&s, "z"), None);
}

#[test]
fn delete_color_remaps_sprite() {
    let mut p = Palette::default_palette();
    let mut s = sprite();
    let third = p.colors[3];
    assert!(delete_palette_color(&mut p, &mut s, 2));
    assert_eq!(p.colors.len(), 32);
    assert_eq!(p.colors[2], third);
    assert_eq!((s.layers[0].elements[0].stroke_color_index, s.layers[0].elements[0].fill_color_index), (1, 0));
    assert_eq!((s.layers[1].elements[0].stroke_color_index, s.layers[1].elements[0].fill_color_index), (2, 1));
    assert_eq!(s.layers[1].elements[1].stroke_color_index, 0);
    assert_eq!(s.background_color_index, 2);
}

#[test]
fn delete_color_refuses_transparent_and_out_of_range() {
    let mut p = Palette::default_palette();
    let mut s = sprite();
    assert!(!delete_palette_color(&mut p, &mut s, 0));
    assert!(!delete_palette_color(&mut p, &mut s, 40));
    assert_eq!(p.colors.len(), 33);
    assert_eq!(s.background_color_index, 3);
}

#[test]
fn palette_limits() {
    let mut p = Palette { name: "p".to_string(), colors: vec![PaletteColor::transparent(); 255] };
    assert!(add_palette_color(&mut p, PaletteColor::new(1, 2, 3)));
    assert_eq!(p.colors.len(), 256);
    assert!(!add_palette_color(&mut p, PaletteColor::new(4, 5, 6)));
    assert_eq!(p.colors.len(), 256);
    edit_palette_color(&mut p, 3, PaletteColor::new(9, 9, 9));
    assert_eq!(p.colors[3], PaletteColor::new(9, 9, 9));
    edit_palette_color(&mut p, 255, PaletteColor::new(8, 8, 8));
    assert_eq!(p.colors[255], PaletteColor::new(8, 8, 8));
}

#[test]
fn import_puts_transparent_first() {
    let mut p = Palette::default_palette();
    import_palette(&mut p, vec![PaletteColor::new(1, 1, 1), PaletteColor::new(2, 2, 2)]);
    assert_eq!(p.colors.len(), 3);
    assert_eq!(p.colors[0].a, 0);
    assert_eq!(p.colors[1], PaletteColor::new(1, 1, 1));
    import_palette(&mut p, vec![PaletteColor::transparent(); 300]);
    assert_eq!(p.colors.len(), 256);
    import_palette(&mut p, Vec::new());
    assert_eq!(p.colors, vec![PaletteColor::transparent()]);
    assert_eq!(p.name, "Downgraded 32");
}

#[test]
fn fill_color_targets_one_element() {
    let mut s = sprite();
    set_fill_color(&mut s, "b", 7);
    assert_eq!(s.layers[1].elements[0].fill_color_index, 7);
    assert_eq!(s.layers[1].elements[1].fill_color_index, 0);
    assert_eq!(s.layers[0].elements[0].fill_color_index, 2);
}

#[test]
fn hatch_import_skips_known_names() {
    let existing = vec!["a".to_string()];
    let incoming = vec!["b".to_string(), "a".to_string(), "b".to_string(), "c".to_string()];
    assert_eq!(hatch_import_positions(&existing, &incoming), vec![0, 3]);
    assert!(hatch_import_positions(&existing, &Vec::new()).is_empty());
}

fn gradient(start: u8, end: u8) -> GradientFill {
    GradientFill { gradient_type: GradientType::Linear, color_index_start: start, color_index_end: end, alignment: GradientAlignment::Vertical }
}

#[test]
fn delete_color_remaps_gradient_ends() {
    let mut p = Palette::default_palette();
    let mut s = sprite();
    s.layers[0].elements[0].gradient_fill = Some(gradient(2, 5));
    assert!(delete_palette_color(&mut p, &mut s, 2));
    assert_eq!(s.layers[0].elements[0].gradient_fill, Some(gradient(0, 4)));
    assert_eq!(s.layers[1].elements[0].gradient_fill, None);
}

#[test]
fn flat_fill_replaces_gradient() {
    let mut s = sprite();
    s.layers[1].elements[0].gradient_fill = Some(gradient(1, 3));
    s.layers[1].elements[1].gradient_fill = Some(gradient(1, 3));
    set_fill_color(&mut s, "b", 6);
    assert_eq!(s.layers[1].elements[0].fill_color_index, 6);
    assert_eq!(s.layers[1].elements[0].gradient_fill, None);
    assert_eq!(s.layers[1].elements[1].gradient_fill, Some(gradient(1, 3)));
}

fn entry(id: &str, name: &str) -> HatchPatternEntry {
    HatchPatternEntry { id: id.to_string(), name: name.to_string() }
}

fn document() -> Document {
    Document {
        palette: Palette::default_palette(),
        editor_preferences: EditorPreferences::default(),
        hatch_patterns: vec![entry("h1", "Lines"), entry("h2", "Cross")],
        sprite: sprite(),
        selected_sequence_id: None,
        selected_keyframe_id: None,
        playing: false,
    }
}

#[test]
fn sprite_actions_record_undo_and_undo_restores() {
    let mut doc = document();
    let mut history: History<Sprite> = History::new(10);
    let out = apply_action(&mut doc, &mut history, Action::SetFillColor { element_id: "b".to_string(), fill_color_index: 7 });
    assert!(out.undo_recorded && !out.save_defaults);
    assert_eq!(doc.sprite.layers[1].elements[0].fill_color_index, 7);
    assert_eq!(history.undo_len(), 1);
    let mut current = doc.sprite.clone();
    assert!(history.undo(&mut current));
    assert_eq!(current.layers[1].elements[0].fill_color_index, 1);
}

#[test]
fn project_actions_leave_history_alone() {
    let mut doc = document();
    let mut history: History<Sprite> = History::new(10);
    let out = apply_action(&mut doc, &mut history, Action::AddPaletteColor(PaletteColor::new(1, 2, 3)));
    assert!(!out.undo_recorded && out.save_defaults);
    assert_eq!(doc.palette.colors.len(), 34);
    assert_eq!(history.undo_len(), 0);
    let out = apply_action(&mut doc, &mut history, Action::DeletePaletteColor(0));
    assert!(!out.undo_recorded && !out.save_defaults);
    let out = apply_action(&mut doc, &mut history, Action::DeletePaletteColor(3));
    assert!(out.undo_recorded && out.save_defaults);
    assert_eq!(doc.sprite.background_color_index, 0);
    assert_eq!(history.undo_len(), 1);
}

#[test]
fn deleting_hatch_pattern_clears_its_uses() {
    let mut doc = document();
    doc.sprite.layers[0].elements[0].hatch_fill_id = Some("h1".to_string());
    doc.sprite.layers[1].elements[0].hatch_fill_id = Some("h2".to_string());
    let mut history: History<Sprite> = History::new(10);
    let out = apply_action(&mut doc, &mut history, Action::DeleteHatchPattern("h1".to_string()));
    assert!(out.undo_recorded && out.save_defaults);
    assert_eq!(doc.hatch_patterns.len(), 1);
    assert_eq!(doc.hatch_patterns[0].id, "h2");
    assert_eq!(doc.sprite.layers[0].elements[0].hatch_fill_id, None);
    assert_eq!(doc.sprite.layers[1].elements[0].hatch_fill_id, Some("h2".to_string()));
}

#[test]
fn hatch_library_edits() {
    let mut lib = vec![entry("a", "One"), entry("b", "Two"), entry("a", "Three")];
    remove_hatch_pattern(&mut lib, "a");
    assert_eq!(lib.len(), 1);
    update_hatch_pattern(&mut lib, entry("b", "Renamed"));
    assert_eq!(lib[0].name, "Renamed");
    update_hatch_pattern(&mut lib, entry("zz", "X"));
    assert_eq!(lib.len(), 1);
    import_hatch_patterns(&mut lib, vec![entry("c", "Renamed"), entry("d", "New"), entry("e", "New")]);
    assert_eq!(lib.iter().map(|e| e.id.as_str()).collect::<Vec<_>>(), vec!["b", "d"]);
}

#[test]
fn stroke_layers_go_above_active_layer_in_its_group() {
    let mut s = sprite();
    s.layers[0].group_id = Some("g".to_string());
    let a = Layer::new("A".to_string());
    let b = Layer::new("B".to_string());
    let b_id = b.id.clone();
    let active = commit_stroke_layers(&mut s, 0, vec![a, b]);
    assert_eq!(active, Some(b_id));
    let names: Vec<&str> = s.layers.iter().map(|l| l.name.as_str()).collect();
    assert_eq!(names, vec!["Layer 1", "A", "B", "L2"]);
    assert_eq!(s.layers[1].group_id, Some("g".to_string()));
    assert_eq!(s.layers[2].group_id, Some("g".to_string()));
    assert_eq!(s.layers[3].group_id, None);
    let c = Layer::new("C".to_string());
    commit_stroke_layers(&mut s, 9, vec![c]);
    assert_eq!(s.layers[4].name, "C");
    assert_eq!(s.layers[4].group_id, None);
}

#[test]
fn erase_result_splits_into_layers() {
    let mut s = sprite();
    s.layers[1].group_id = Some("g".to_string());
    let mut extra = Layer::new("piece 2".to_string());
    extra.elements.push(element("b2", 3, 1));
    let extra_id = extra.id.clone();
    let last = place_erase_result(&mut s, 1, 0, Some(element("b1", 3, 1)), vec![extra]);
    assert_eq!(last, Some(extra_id));
    let ids: Vec<&str> = s.layers[1].elements.iter().map(|e| e.id.as_str()).collect();
    assert_eq!(ids, vec!["c", "b1"]);
    assert_eq!(s.layers.len(), 3);
    assert_eq!(s.layers[2].name, "piece 2");
    assert_eq!(s.layers[2].group_id, Some("g".to_string()));
    let none = place_erase_result(&mut s, 0, 0, None, vec![]);
    assert_eq!(none, None);
    assert!(s.layers[0].elements.is_empty());
}

#[test]
fn sequence_actions() {
    let mut doc = document();
    let mut history: History<Sprite> = History::new(20);
    doc.playing = true;
    let out = apply_action(&mut doc, &mut history, Action::CreateSequence { name: "Walk".to_string() });
    assert!(out.undo_recorded && out.reset_playhead && !doc.playing);
    let walk = doc.sprite.animations[0].id.clone();
    assert_eq!(doc.selected_sequence_id, Some(walk.clone()));
    assert!(doc.sprite.animations[0].looping);
    apply_action(&mut doc, &mut history, Action::CreateSequence { name: "Run".to_string() });
    let run = doc.sprite.animations[1].id.clone();
    assert_eq!(doc.selected_sequence_id, Some(run.clone()));

    apply_action(&mut doc, &mut history, Action::RenameSequence { sequence_id: walk.clone(), name: "Stroll".to_string() });
    assert_eq!(doc.sprite.animations[0].name, "Stroll");
    apply_action(&mut doc, &mut history, Action::SetSequenceLooping { sequence_id: walk.clone(), looping: false });
    assert!(!doc.sprite.animations[0].looping);

    doc.sprite.animations[0].event_markers.push(EventMarker { id: "m1".to_string(), name: "step".to_string() });
    doc.sprite.animations[0].event_markers.push(EventMarker { id: "m2".to_string(), name: "land".to_string() });
    apply_action(&mut doc, &mut history, Action::RenameEventMarker {
        sequence_id: walk.clone(),
        marker_id: "m2".to_string(),
        name: "touch".to_string(),
    });
    assert_eq!(doc.sprite.animations[0].event_markers[1].name, "touch");
    apply_action(&mut doc, &mut history, Action::DeleteEventMarker { sequence_id: walk.clone(), marker_id: "m1".to_string() });
    assert_eq!(doc.sprite.animations[0].event_markers.len(), 1);
    assert_eq!(doc.sprite.animations[0].event_markers[0].id, "m2");

    // deleting a sequence not shown keeps the selection
    doc.playing = true;
    let out = apply_action(&mut doc, &mut history, Action::DeleteSequence { sequence_id: walk.clone() });
    assert!(!out.reset_playhead && doc.playing);
    assert_eq!(doc.selected_sequence_id, Some(run.clone()));
    // deleting the shown one falls back to the first left (none here)
    let out = apply_action(&mut doc, &mut history, Action::DeleteSequence { sequence_id: run });
    assert!(out.reset_playhead && !doc.playing);
    assert_eq!(doc.selected_sequence_id, None);

    let out = apply_action(&mut doc, &mut history, Action::SelectSequence { sequence_id: Some(walk) });
    assert!(!out.undo_recorded && out.reset_playhead);
    assert_eq!(doc.selected_keyframe_id, None);
    assert_eq!(history.undo_len(), 8);
}

#[test]
fn reference_image_actions() {
    let mut doc = document();
    let mut history: History<Sprite> = History::new(20);
    let img = ReferenceImage::new("ref.png".to_string());
    let id = img.id.clone();
    assert!(img.visible && !img.locked);
    apply_action(&mut doc, &mut history, Action::AddReferenceImage(img));
    assert_eq!(doc.sprite.reference_images.len(), 1);
    let out = apply_action(&mut doc, &mut history, Action::RemoveReferenceImage(id));
    assert!(out.undo_recorded);
    assert!(doc.sprite.reference_images.is_empty());
    let mut current = doc.sprite.clone();
    assert!(history.undo(&mut current));
    assert_eq!(current.reference_images.len(), 1);
}
