use messy_grapefruit::model::sprite::{Layer, Sprite};
use messy_grapefruit::state::editor::{SelectionState, is_layer_interactive, track_recent_color};

#[test]
fn selection_toggle_and_select() {
    let mut s = SelectionState { selected_ids: Vec::new() };
    assert!(s.is_empty());
    s.toggle("a");
    s.toggle("b");
    assert!(s.is_selected("a") && s.is_selected("b"));
    s.toggle("a");
    assert!(!s.is_selected("a"));
    assert_eq!(s.selected_ids, vec!["b"]);
    s.select_single("c".to_string());
    assert_eq!(s.selected_ids, vec!["c"]);
    s.select_all(vec!["x".to_string(), "y".to_string()]);
    assert_eq!(s.selected_ids.len(), 2);
    s.clear();
    assert!(s.is_empty());
}

#[test]
fn recent_colors_most_recent_first() {
    let mut recent = Vec::new();
    track_recent_color(&mut recent, 3);
    track_recent_color(&mut recent, 5);
    track_recent_color(&mut recent, 3);
    assert_eq!(recent, vec![3, 5]);
}

#[test]
fn interactive_layers() {
    let mut l = Layer::new("L".to_string());
    assert!(is_layer_interactive(&l, None));
    assert!(!is_layer_interactive(&l, Some("other")));
    let id = l.id.clone();
    assert!(is_layer_interactive(&l, Some(&id)));
    l.locked = true;
    assert!(!is_layer_interactive(&l, None));
    let _ = Sprite::new("S".to_string(), 1, 1);
}
