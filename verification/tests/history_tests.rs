use messy_grapefruit::model::sprite::Sprite;
use messy_grapefruit::state::history::History;

fn sprite(name: &str) -> Sprite {
    Sprite::new(name.to_string(), 64, 64)
}

#[test]
fn test_undo_redo() {
    let mut history = History::new(100);
    let s0 = sprite("v0");
    let s1 = sprite("v1");
    let s2 = sprite("v2");

    history.push("edit 1".into(), s0.clone(), s1.clone());
    history.push("edit 2".into(), s1.clone(), s2.clone());

    let mut current = s2.clone();
    assert!(history.undo(&mut current));
    assert_eq!(current.name, "v1");

    assert!(history.undo(&mut current));
    assert_eq!(current.name, "v0");

    assert!(!history.undo(&mut current)); // nothing left

    assert!(history.redo(&mut current));
    assert_eq!(current.name, "v1");
}

#[test]
fn test_redo_clears_on_new_push() {
    let mut history = History::new(100);
    let s0 = sprite("v0");
    let s1 = sprite("v1");
    let s2 = sprite("v2");

    history.push("edit 1".into(), s0.clone(), s1.clone());
    let mut current = s1.clone();
    history.undo(&mut current);
    assert!(history.can_redo());

    history.push("edit 2".into(), s0.clone(), s2.clone());
    assert!(!history.can_redo());
}

#[test]
fn test_max_depth() {
    let mut history = History::new(3);
    for i in 0..5 {
        let before = sprite(&format!("v{i}"));
        let after = sprite(&format!("v{}", i + 1));
        history.push(format!("edit {i}"), before, after);
    }
    assert_eq!(history.undo_len(), 3);
}

#[test]
fn undo_then_redo_restores() {
    let mut history: History<String> = History::new(10);
    history.push("a".into(), "0".to_string(), "1".to_string());
    let mut current = "1".to_string();
    assert!(history.undo(&mut current));
    assert_eq!(current, "0");
    assert!(history.redo(&mut current));
    assert_eq!(current, "1");
    assert!(!history.redo(&mut current));
    assert!(history.can_undo());
}

#[test]
fn drag_coalesces_into_one_step() {
    let mut history: History<String> = History::new(10);
    history.begin_drag("move".into(), "start".to_string());
    assert!(history.is_dragging());
    history.end_drag("end".to_string());
    assert!(!history.is_dragging());
    assert_eq!(history.undo_len(), 1);
    let mut current = "end".to_string();
    assert!(history.undo(&mut current));
    assert_eq!(current, "start");
}

#[test]
fn cancelled_drag_records_nothing() {
    let mut history: History<String> = History::new(10);
    history.begin_drag("move".into(), "start".to_string());
    history.cancel_drag();
    assert!(!history.is_dragging());
    assert_eq!(history.undo_len(), 0);
}
