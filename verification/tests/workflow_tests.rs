use messy_grapefruit::action_handler::{ElementEdit, edit_elements};
use messy_grapefruit::clipboard::{remove_elements, selected_elements, with_fresh_ids};
use messy_grapefruit::engine::socket::would_create_cycle;
use messy_grapefruit::export::bone_export::{export_file, part_name, plan_parts, skin_manifest};
use messy_grapefruit::export::watcher::{PendingExports, is_sprite_change};
use messy_grapefruit::model::sprite::{Layer, Socket, Sprite, StrokeElement};
use messy_grapefruit::state::editor::SelectionState;

fn element(id: &str, n: usize) -> StrokeElement {
    let mut e = StrokeElement::new((0..n).map(|i| format!("{id}{i}")).collect(), 1, false);
    e.id = id.to_string();
    e
}

fn sprite() -> Sprite {
    let mut s = Sprite::new("Hero".to_string(), 32, 32);
    s.layers[0].elements.push(element("a", 2));
    s.layers[0].elements.push(element("empty", 0));
    let mut hidden = Layer::new("hidden".to_string());
    hidden.visible = false;
    hidden.elements.push(element("h", 3));
    s.layers.push(hidden);
    let mut third = Layer::new("third".to_string());
    third.elements.push(element("b", 2));
    third.elements.push(element("c", 4));
    s.layers.push(third);
    s
}

#[test]
fn new_element_defaults() {
    let e = StrokeElement::new(vec!["v".to_string()], 7, false);
    assert_eq!(e.id.len(), 36);
    assert!(e.name.is_none() && !e.closed && e.hatch_fill_id.is_none());
    assert_eq!((e.stroke_color_index, e.fill_color_index), (7, 0));
}

#[test]
fn parts_of_visible_elements() {
    let s = sprite();
    let slots = plan_parts(&s);
    let got: Vec<(usize, usize, usize)> = slots.iter().map(|p| (p.layer_index, p.element_index, p.z_order)).collect();
    assert_eq!(got, vec![(0, 0, 0), (2, 0, 2000), (2, 1, 2001)]);
    assert_eq!(part_name(&None, 3), "part_3");
    assert_eq!(part_name(&Some("arm".to_string()), 3), "arm");
}

#[test]
fn export_names() {
    assert_eq!(export_file("My Hero", Some("walk cycle"), "_atlas.png"), "My_Hero_walk_cycle_atlas.png");
    assert_eq!(export_file("My Hero", None, ".ron"), "My_Hero.ron");
    let m = skin_manifest("Hero!", &vec!["Red Suit".to_string()]);
    assert_eq!(m.len(), 2);
    assert_eq!((m[0].name.as_str(), m[0].atlas_file.as_str()), ("default", "Hero__default.png"));
    assert_eq!((m[1].name.as_str(), m[1].atlas_file.as_str()), ("Red Suit", "Hero__Red_Suit.png"));
}

#[test]
fn pending_exports_once_each() {
    let mut p = PendingExports::new();
    p.queue("a.sprite".to_string());
    p.queue("b.sprite".to_string());
    p.queue("a.sprite".to_string());
    assert_eq!(p.drain(), vec!["a.sprite", "b.sprite"]);
    assert!(p.drain().is_empty());
    assert!(is_sprite_change(true, Some("sprite")));
    assert!(!is_sprite_change(false, Some("sprite")));
    assert!(!is_sprite_change(true, Some("png")));
    assert!(!is_sprite_change(true, None));
}

#[test]
fn copy_and_cut() {
    let mut s = sprite();
    let sel = SelectionState { selected_ids: vec!["c".to_string(), "a".to_string()] };
    let copied = selected_elements(&s, &sel);
    let ids: Vec<&str> = copied.iter().map(|e| e.id.as_str()).collect();
    assert_eq!(ids, vec!["a", "c"]);
    remove_elements(&mut s, &sel.selected_ids);
    assert_eq!(s.layers[0].elements.len(), 1);
    assert_eq!(s.layers[0].elements[0].id, "empty");
    assert_eq!(s.layers[2].elements.len(), 1);
    assert_eq!(s.layers[2].elements[0].id, "b");
    assert_eq!(s.layers.len(), 3);
}

#[test]
fn hatch_edits() {
    let mut s = sprite();
    edit_elements(&mut s, "b", &ElementEdit::Hatch("p1".to_string()));
    edit_elements(&mut s, "c", &ElementEdit::Hatch("p2".to_string()));
    assert_eq!(s.layers[2].elements[0].hatch_fill_id.as_deref(), Some("p1"));
    edit_elements(&mut s, "", &ElementEdit::DropPattern("p1".to_string()));
    assert!(s.layers[2].elements[0].hatch_fill_id.is_none());
    assert_eq!(s.layers[2].elements[1].hatch_fill_id.as_deref(), Some("p2"));
    edit_elements(&mut s, "c", &ElementEdit::ClearHatch);
    assert!(s.layers[2].elements[1].hatch_fill_id.is_none());
    edit_elements(&mut s, "a", &ElementEdit::Fill(6));
    assert_eq!(s.layers[0].elements[0].fill_color_index, 6);
}

#[test]
fn accepted_sockets_never_loop() {
    let mut s = sprite();
    // third (holds b, c) onto a (layer 0): accepted
    let third_id = s.layers[2].id.clone();
    let first_id = s.layers[0].id.clone();
    assert!(!would_create_cycle(&s, &third_id, "a"));
    s.layers[2].socket = Some(Socket { parent_element_id: "a".to_string(), parent_vertex_id: "a0".to_string() });
    // layer 0 onto c (on the third layer) would now close a loop
    assert!(would_create_cycle(&s, &first_id, "c"));
    // hidden layer onto b is fine
    let hidden_id = s.layers[1].id.clone();
    assert!(!would_create_cycle(&s, &hidden_id, "b"));
}

#[test]
fn pasted_copy_gets_fresh_ids() {
    let mut e = StrokeElement::new(vec!["v0".to_string(), "v1".to_string()], 4, true);
    e.fill_color_index = 2;
    let old_id = e.id.clone();
    let p = with_fresh_ids(e);
    assert_ne!(p.id, old_id);
    assert_eq!(p.id.len(), 36);
    assert_eq!(p.vertex_ids.len(), 2);
    assert!(p.vertex_ids.iter().all(|v| v.len() == 36 && v != "v0" && v != "v1"));
    assert_ne!(p.vertex_ids[0], p.vertex_ids[1]);
    assert_eq!((p.stroke_color_index, p.fill_color_index, p.curve_mode), (4, 2, true));
}
