use messy_grapefruit::model::project::{
    Palette, PaletteColor, ThemeColorIndices, colors_from_hex_list, palette_from_hex_list,
};
use messy_grapefruit::model::sprite::{Layer, LayerGroup, Sprite, StrokeElement};
use messy_grapefruit::engine::palette::find_color_ramp;

#[test]
fn test_palette_index_0_transparent() {
    let palette = Palette::default_palette();
    let c = palette.get_color(0);
    assert_eq!(c.a, 0);
}

#[test]
fn test_palette_out_of_range_returns_transparent() {
    let palette = Palette::default_palette();
    let c = palette.get_color(255);
    assert_eq!(c.a, 0);
}

#[test]
fn test_palette_color_from_hex() {
    let c = PaletteColor::from_hex("#ff8040").unwrap();
    assert_eq!(c.r, 255);
    assert_eq!(c.g, 128);
    assert_eq!(c.b, 64);
    assert_eq!(c.a, 255);
}

#[test]
fn test_find_ramp_empty_palette() {
    let palette = Palette::default_palette();
    let ramp = find_color_ramp(&palette, 0, 5);
    assert!(ramp.is_empty()); // transparent anchor = no ramp
}

#[test]
fn from_hex_rejects_wrong_length_and_digits() {
    assert!(PaletteColor::from_hex("#fff").is_none());
    assert!(PaletteColor::from_hex("ff80401").is_none());
    assert!(PaletteColor::from_hex("zz8040").is_none());
    let c = PaletteColor::from_hex("##7B334C").unwrap();
    assert_eq!((c.r, c.g, c.b, c.a), (0x7b, 0x33, 0x4c, 255));
}

#[test]
fn default_palette_has_33_entries() {
    let p = Palette::default_palette();
    assert_eq!(p.name, "Downgraded 32");
    assert_eq!(p.colors.len(), 33);
    let c = p.get_color(1);
    assert_eq!((c.r, c.g, c.b, c.a), (0x7b, 0x33, 0x4c, 255));
}

#[test]
fn theme_roles_get_set() {
    let mut t = ThemeColorIndices::default_dark();
    t.set(2, 17);
    assert_eq!(t.get(2), 17);

    assert_eq!(ThemeColorIndices::role_names().len(), 5);
}

#[test]
fn hex_list_skips_bad_entries() {
    let hexes = vec!["1a1c2c".to_string(), "nothex".to_string(), "#5d275d".to_string()];
    let colors = colors_from_hex_list(&hexes);
    assert_eq!(colors.len(), 2);
    assert_eq!((colors[0].r, colors[0].g, colors[0].b), (0x1a, 0x1c, 0x2c));
    assert_eq!((colors[1].r, colors[1].g, colors[1].b), (0x5d, 0x27, 0x5d));
}

#[test]
fn lenient_palette_starts_transparent() {
    let hexes = vec!["1a1c2cff".to_string(), "abc".to_string(), "zz1c2c".to_string()];
    let colors = palette_from_hex_list(&hexes);
    assert_eq!(colors.len(), 3);
    assert_eq!(colors[0].a, 0);
    assert_eq!((colors[1].r, colors[1].g, colors[1].b, colors[1].a), (0x1a, 0x1c, 0x2c, 255));
    assert_eq!((colors[2].r, colors[2].g, colors[2].b), (0, 0x1c, 0x2c));
}

#[test]
fn test_sprite_new_has_one_layer() {
    let sprite = Sprite::new("Test".to_string(), 256, 256);
    assert_eq!(sprite.layers.len(), 1);
    assert_eq!(sprite.layers[0].name, "Layer 1");
    assert!(sprite.layers[0].visible);
    assert!(!sprite.layers[0].locked);
}

fn element(ids: &[&str]) -> StrokeElement {
    StrokeElement {
        id: "e".to_string(),
        name: None,
        vertex_ids: ids.iter().map(|s| s.to_string()).collect(),
        closed: false,
        stroke_color_index: 1,
        fill_color_index: 0,
        curve_mode: false,
        gradient_fill: None,
        hatch_fill_id: None,
    }
}

#[test]
fn test_metrics() {
    let mut sprite = Sprite::new("Test".to_string(), 256, 256);
    assert_eq!(sprite.element_count(), 0);
    assert_eq!(sprite.vertex_count(), 0);
    assert_eq!(sprite.layer_count(), 1);

    sprite.layers[0].elements.push(element(&["a", "b"]));
    assert_eq!(sprite.element_count(), 1);
    assert_eq!(sprite.vertex_count(), 2);
}

#[test]
fn test_layers_in_group() {
    let mut sprite = Sprite::new("Test".to_string(), 256, 256);
    let group = LayerGroup::new("Group".to_string());
    let gid = group.id.clone();
    sprite.layer_groups.push(group);

    sprite.layers[0].group_id = Some(gid.clone());
    let mut l2 = Layer::new("Layer 2".to_string());
    l2.group_id = Some(gid.clone());
    sprite.layers.push(l2);
    sprite.layers.push(Layer::new("Layer 3".to_string())); // ungrouped

    assert_eq!(sprite.layers_in_group(&gid), vec![0, 1]);
}

#[test]
fn test_layer_idx_by_id() {
    let sprite = Sprite::new("Test".to_string(), 256, 256);
    let id = sprite.layers[0].id.clone();
    assert_eq!(sprite.layer_idx_by_id(&id), Some(0));
    assert_eq!(sprite.layer_idx_by_id("nonexistent"), None);
}

#[test]
fn new_ids_are_uuids() {
    let g = LayerGroup::new("G".to_string());
    assert_eq!(g.id.len(), 36);
    assert!(g.visible && !g.locked && !g.collapsed);
    let a = Layer::new("A".to_string());
    let b = Layer::new("B".to_string());
    assert_ne!(a.id, b.id);
}
