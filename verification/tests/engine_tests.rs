use messy_grapefruit::engine::constraints::ProceduralTarget;
use messy_grapefruit::engine::eraser::{erase_segment, erase_segment_pieces, erase_vertex, erase_vertex_pieces};
use messy_grapefruit::engine::merge::{VertexEnd, join_elements, join_vertex_lists, merge_elements, merge_vertex_lists};
use messy_grapefruit::engine::socket::{find_child_layers_for_element, find_child_layers_for_vertex, get_all_socket_targets, would_create_cycle};
use messy_grapefruit::engine::transform::find_element_vertex_mut;
use messy_grapefruit::engine::symmetry::{SymmetryJoin, try_join_symmetric};
use messy_grapefruit::model::sprite::{Layer, Socket, Sprite, StrokeElement};

fn make_open_path(n: usize) -> StrokeElement {
    StrokeElement {
        id: "elem1".to_string(),
        name: None,
        vertex_ids: (0..n).map(|i| format!("v{i}")).collect(),
        closed: false,
        stroke_color_index: 1,
        fill_color_index: 0,
        curve_mode: false,
        gradient_fill: None,
        hatch_fill_id: None,
    }
}

fn make_closed_path(n: usize) -> StrokeElement {
    let mut e = make_open_path(n);
    e.closed = true;
    e
}

#[test]
fn erase_endpoint_open() {
    let elem = make_open_path(4);
    let result = erase_vertex(&elem, "v0");
    assert_eq!(result.new_elements.len(), 1);
    assert_eq!(result.new_elements[0].vertex_ids.len(), 3);
    assert_eq!(result.new_elements[0].id, "elem1");
}

#[test]
fn erase_interior_open_splits() {
    let elem = make_open_path(5);
    let result = erase_vertex(&elem, "v2");
    assert_eq!(result.new_elements.len(), 2);
    assert_eq!(result.new_elements[0].vertex_ids.len(), 2); // [v0, v1]
    assert_eq!(result.new_elements[1].vertex_ids.len(), 2); // [v3, v4]
    assert_eq!(result.new_elements[0].id, "elem1"); // keeps its id
    assert_ne!(result.new_elements[1].id, "elem1"); // new ID
}

#[test]
fn erase_vertex_closed_opens() {
    let elem = make_closed_path(4);
    let result = erase_vertex(&elem, "v1");
    assert_eq!(result.new_elements.len(), 1);
    assert!(!result.new_elements[0].closed);
    assert_eq!(result.new_elements[0].vertex_ids.len(), 3);
}

#[test]
fn erase_segment_open_splits() {
    let elem = make_open_path(4);
    let result = erase_segment(&elem, 1); // remove segment between v1-v2
    assert_eq!(result.new_elements.len(), 2);
    assert_eq!(result.new_elements[0].vertex_ids.len(), 2); // [v0, v1]
    assert_eq!(result.new_elements[1].vertex_ids.len(), 2); // [v2, v3]
}

#[test]
fn erase_segment_closed_opens() {
    let elem = make_closed_path(4);
    let result = erase_segment(&elem, 2);
    assert_eq!(result.new_elements.len(), 1);
    assert!(!result.new_elements[0].closed);
    assert_eq!(result.new_elements[0].vertex_ids.len(), 4);
}

#[test]
fn erase_vertex_too_few_deletes() {
    let elem = make_open_path(2);
    let result = erase_vertex(&elem, "v0");
    assert_eq!(result.new_elements.len(), 0);
}

#[test]
fn erase_missing_vertex_keeps_element() {
    let elem = make_open_path(3);
    let result = erase_vertex(&elem, "nope");
    assert_eq!(result.new_elements.len(), 1);
    assert_eq!(result.new_elements[0].vertex_ids, elem.vertex_ids);
    assert_eq!(result.new_elements[0].id, "elem1");
}

#[test]
fn closed_path_opens_after_the_gap() {
    let pieces = erase_vertex_pieces(vec![0, 1, 2, 3, 4], true, 1);
    assert_eq!(pieces, vec![(vec![2, 3, 4, 0], true)]);
    let tri = erase_vertex_pieces(vec![0, 1, 2], true, 1);
    assert_eq!(tri, vec![(vec![0, 2], true)]);
    let seg = erase_segment_pieces(vec![0, 1, 2, 3], true, 2);
    assert_eq!(seg, vec![(vec![3, 0, 1, 2], true)]);
    let wrap = erase_segment_pieces(vec![0, 1, 2, 3], true, 3);
    assert_eq!(wrap, vec![(vec![0, 1, 2, 3], true)]);
}

#[test]
fn interior_split_drops_short_halves() {
    let pieces = erase_vertex_pieces(vec![0, 1, 2, 3], false, 1);
    assert_eq!(pieces, vec![(vec![2, 3], false)]);
    let pieces = erase_segment_pieces(vec![0, 1, 2], false, 0);
    assert_eq!(pieces, vec![(vec![1, 2], false)]);
}

#[test]
fn merge_orders() {
    assert_eq!(merge_vertex_lists(vec![1, 2, 3], VertexEnd::End, vec![3, 4, 5], VertexEnd::Start), vec![1, 2, 3, 4, 5]);
    assert_eq!(merge_vertex_lists(vec![1, 2, 3], VertexEnd::End, vec![5, 4, 3], VertexEnd::End), vec![1, 2, 3, 4, 5]);
    assert_eq!(merge_vertex_lists(vec![3, 4, 5], VertexEnd::Start, vec![1, 2, 3], VertexEnd::End), vec![2, 1, 3, 4, 5]);
    assert_eq!(merge_vertex_lists(vec![3, 4, 5], VertexEnd::Start, vec![3, 2, 1], VertexEnd::Start), vec![2, 3, 3, 4, 5]);
    assert_eq!(merge_vertex_lists(vec![1, 2], VertexEnd::End, Vec::new(), VertexEnd::Start), vec![1, 2]);
}

#[test]
fn join_orders() {
    assert_eq!(join_vertex_lists(vec![1, 2, 3], VertexEnd::End, vec![3, 4, 5], VertexEnd::Start), vec![1, 2, 3, 4, 5]);
    assert_eq!(join_vertex_lists(vec![1, 2, 3], VertexEnd::End, vec![5, 4, 3], VertexEnd::End), vec![1, 2, 3, 4, 5]);
    assert_eq!(join_vertex_lists(vec![3, 4, 5], VertexEnd::Start, vec![1, 2, 3], VertexEnd::End), vec![2, 1, 3, 4, 5]);
    assert_eq!(join_vertex_lists(vec![3, 4, 5], VertexEnd::Start, vec![3, 2, 1], VertexEnd::Start), vec![2, 1, 3, 4, 5]);
}

#[test]
fn join_elements_keeps_target_identity() {
    let mut target = make_open_path(3);
    target.fill_color_index = 4;
    let mut source = make_open_path(2);
    source.id = "elem2".to_string();
    source.vertex_ids = vec!["v2".to_string(), "w1".to_string()];
    let joined = join_elements(&target, VertexEnd::End, &source, VertexEnd::Start);
    assert_eq!(joined.id, "elem1");
    assert_eq!(joined.vertex_ids, vec!["v0", "v1", "v2", "w1"]);
    assert_eq!(joined.fill_color_index, 4);
    assert!(!joined.closed);
    let merged = merge_elements(&target, VertexEnd::End, &vec!["v2".to_string(), "n1".to_string()], VertexEnd::Start, 9, true);
    assert_eq!(merged.vertex_ids, vec!["v0", "v1", "v2", "n1"]);
    assert_eq!(merged.stroke_color_index, 9);
    assert!(merged.curve_mode);
    assert!(!joined.curve_mode);
}

#[test]
fn join_last_on_axis() {
    // x coordinates of a stroke ending on the vertical axis x = 50, and of its mirror
    let primary = vec![10.0f32, 30.0, 50.0];
    let mirror: Vec<f32> = primary.iter().map(|x| 2.0 * 50.0 - x).collect();
    match try_join_symmetric(primary, mirror, false, false, true) {
        SymmetryJoin::Joined { vertices, closed, snap } => {
            assert_eq!(vertices.len(), 5);
            assert!(!closed);
            assert!((vertices[0] - 10.0).abs() < 1e-4);
            assert!((vertices[4] - 90.0).abs() < 1e-4);
            assert_eq!(snap, vec![2]);
        }
        SymmetryJoin::Separate { .. } => panic!("Expected joined result"),
    }
}

#[test]
fn join_both_on_axis_closed() {
    let primary = vec![50.0f32, 30.0, 50.0];
    let mirror: Vec<f32> = primary.iter().map(|x| 2.0 * 50.0 - x).collect();
    match try_join_symmetric(primary, mirror, false, true, true) {
        SymmetryJoin::Joined { vertices, closed, .. } => {
            assert_eq!(vertices.len(), 4);
            assert!(closed);
        }
        SymmetryJoin::Separate { .. } => panic!("Expected joined result"),
    }
}

#[test]
fn no_join_when_off_axis() {
    let primary = vec![10.0f32, 20.0, 30.0];
    let mirror: Vec<f32> = primary.iter().map(|x| 2.0 * 50.0 - x).collect();
    match try_join_symmetric(primary, mirror, false, false, false) {
        SymmetryJoin::Separate { mirrored } => {
            let (m, closed) = mirrored.unwrap();
            assert_eq!(m, vec![70.0, 80.0, 90.0]);
            assert!(!closed);
        }
        SymmetryJoin::Joined { .. } => panic!("Expected separate result"),
    }
}

#[test]
fn first_on_axis_puts_mirror_first() {
    match try_join_symmetric(vec![1, 2, 3], vec![11, 12, 13], false, true, false) {
        SymmetryJoin::Joined { vertices, closed, snap } => {
            assert_eq!(vertices, vec![13, 12, 11, 2, 3]);
            assert!(!closed);
            assert_eq!(snap, vec![2]);
        }
        SymmetryJoin::Separate { .. } => panic!("Expected joined result"),
    }
    match try_join_symmetric(Vec::<i32>::new(), Vec::new(), false, true, true) {
        SymmetryJoin::Separate { mirrored } => assert!(mirrored.is_none()),
        SymmetryJoin::Joined { .. } => panic!("empty stroke"),
    }
}

fn layer_with(id: &str, elements: &[&str], socket: Option<(&str, &str)>) -> Layer {
    let mut l = Layer::new(id.to_string());
    l.id = id.to_string();
    for e in elements {
        let mut el = make_open_path(2);
        el.id = e.to_string();
        l.elements.push(el);
    }
    l.socket = socket.map(|(e, v)| Socket { parent_element_id: e.to_string(), parent_vertex_id: v.to_string() });
    l
}

fn chain_sprite() -> Sprite {
    let mut s = Sprite::new("S".to_string(), 16, 16);
    s.layers = vec![
        layer_with("A", &["a"], None),
        layer_with("B", &["b"], Some(("a", "v0"))),
        layer_with("C", &["c"], Some(("b", "v1"))),
    ];
    s
}

#[test]
fn socket_cycles() {
    let s = chain_sprite();
    assert!(would_create_cycle(&s, "A", "c"));
    assert!(would_create_cycle(&s, "C", "c"));
    assert!(!would_create_cycle(&s, "C", "a"));
    assert!(!would_create_cycle(&s, "A", "missing"));
    assert!(!would_create_cycle(&s, "X", "c"));
}

#[test]
fn socket_children() {
    let s = chain_sprite();
    assert_eq!(find_child_layers_for_element(&s, "a"), vec!["B"]);
    assert_eq!(find_child_layers_for_vertex(&s, "b", "v1"), vec!["C"]);
    assert!(find_child_layers_for_vertex(&s, "b", "v0").is_empty());
}

#[test]
fn procedural_target_names() {
    assert_eq!(ProceduralTarget::from_str("rotation"), Some(ProceduralTarget::Rotation));
    assert_eq!(ProceduralTarget::from_str("scale.y"), Some(ProceduralTarget::ScaleY));
    assert_eq!(ProceduralTarget::from_str("scale"), None);
    for (name, t) in ProceduralTarget::all() {
        assert_eq!(ProceduralTarget::from_str(name), Some(t));
    }
    assert_eq!(ProceduralTarget::all().len(), 5);
}

#[test]
fn socket_targets_skip_own_layer_and_name_elements() {
    let mut s = chain_sprite();
    s.layers[0].name = "Body".to_string();
    s.layers[0].elements[0].id = "abcdefghij".to_string();
    s.layers[1].elements[0].name = Some("Arm".to_string());
    let t = get_all_socket_targets(&s, "C");
    assert_eq!(t.len(), 4);
    assert_eq!(
        t[0],
        ("A".to_string(), "Body".to_string(), "abcdefghij".to_string(), "Element abcdef".to_string(), "v0".to_string())
    );
    assert_eq!(t[1].4, "v1");
    assert_eq!(t[2].1, "B");
    assert_eq!(t[2].3, "Arm");
    assert_eq!(t[3].4, "v1");
    let short = get_all_socket_targets(&s, "A");
    assert_eq!(short.len(), 4);
    assert_eq!(short[2].3, "Element c");
    assert!(short.iter().all(|x| x.0 != "A"));
}

#[test]
fn find_element_vertex_for_editing() {
    let mut s = chain_sprite();
    match find_element_vertex_mut(&mut s, "b", "v1") {
        Some((e, idx)) => {
            assert_eq!(idx, 1);
            assert_eq!(e.id, "b");
            e.closed = true;
        }
        None => panic!("vertex v1 of b exists"),
    }
    assert!(s.layers[1].elements[0].closed);
    assert!(!s.layers[0].elements[0].closed);
    assert!(find_element_vertex_mut(&mut s, "b", "v9").is_none());
    assert!(find_element_vertex_mut(&mut s, "zz", "v0").is_none());
}
