use image::ImageEncoder;
use messy_grapefruit::export::ExportError;
use messy_grapefruit::export::ron_meta::{LayerDynamicsFlags, dynamic_layer_indices, ik_chain_export_order};
use messy_grapefruit::export::bone_export::{AtlasPart, ceil_sqrt, next_power_of_two, pack_atlas, shelf_pack};
use messy_grapefruit::export::rasterize::{RgbaImage, svg_to_png};
use messy_grapefruit::export::spritesheet::{
    build_spritesheet, compute_layout, compute_uniform_trim, generate_texture_atlas_ron, sanitize_filename,
};
use messy_grapefruit::export::svg_gen::{CssColor, ResolvedVisuals, Skin, SkinOverride, resolve_element_visuals, resolve_palette_color};
use messy_grapefruit::model::sprite::StrokeElement;
use messy_grapefruit::model::project::{ExportLayout, ExportMode, ExportSettings, Palette, PaletteColor};

fn png(w: u32, h: u32, rgba: [u8; 4]) -> Vec<u8> {
    let mut raw = Vec::new();
    for _ in 0..(w * h) {
        raw.extend_from_slice(&rgba);
    }
    let mut buf = Vec::new();
    image::codecs::png::PngEncoder::new(&mut buf)
        .write_image(&raw, w, h, image::ExtendedColorType::Rgba8)
        .unwrap();
    buf
}

fn decode(bytes: &[u8]) -> image::RgbaImage {
    image::load_from_memory_with_format(bytes, image::ImageFormat::Png).unwrap().to_rgba8()
}

fn rasterize_message(r: Result<Vec<u8>, ExportError>) -> String {
    match r {
        Err(ExportError::Rasterize(m)) => m,
        _ => panic!("expected a rasterize error"),
    }
}

#[test]
fn power_of_two_rounding() {
    assert_eq!(next_power_of_two(0), 1);
    assert_eq!(next_power_of_two(1), 1);
    assert_eq!(next_power_of_two(2), 2);
    assert_eq!(next_power_of_two(3), 4);
    assert_eq!(next_power_of_two(64), 64);
    assert_eq!(next_power_of_two(65), 128);
    assert_eq!(next_power_of_two(0x8000_0000), 0x8000_0000);
}

#[test]
fn ceil_sqrt_values() {
    assert_eq!(ceil_sqrt(0), 0);
    assert_eq!(ceil_sqrt(1), 1);
    assert_eq!(ceil_sqrt(2), 2);
    assert_eq!(ceil_sqrt(4), 2);
    assert_eq!(ceil_sqrt(5), 3);
    assert_eq!(ceil_sqrt(10_000), 100);
}

#[test]
fn shelf_pack_places_tallest_first() {
    let sizes = vec![(10, 10), (20, 30), (15, 30)];
    let layout = shelf_pack(&sizes, 1).ok().unwrap();
    assert_eq!((layout.width, layout.height), (64, 64));
    // tallest first, equal heights keep their order: (20,30) then (15,30) then (10,10)
    assert_eq!(layout.spots[1], (1, 1));
    assert_eq!(layout.spots[2], (22, 1));
    assert_eq!(layout.spots[0], (38, 1));
}

#[test]
fn shelf_pack_wraps_and_grows() {
    let sizes = vec![(40, 40), (40, 40), (40, 40)];
    let layout = shelf_pack(&sizes, 0).ok().unwrap();
    // 64x64 cannot hold them; width doubles first
    assert_eq!((layout.width, layout.height), (128, 128));
    assert_eq!(layout.spots, vec![(0, 0), (40, 0), (80, 0)]);
    for i in 0..3 {
        for j in 0..3 {
            if i != j {
                let (a, b) = (layout.spots[i], layout.spots[j]);
                assert!(a.0 + 40 <= b.0 || b.0 + 40 <= a.0 || a.1 + 40 <= b.1 || b.1 + 40 <= a.1);
            }
        }
    }
}

#[test]
fn shelf_pack_too_large() {
    let sizes = vec![(10, 9000)];
    match shelf_pack(&sizes, 0) {
        Err(ExportError::Rasterize(m)) => assert_eq!(m, "Atlas too large (>8192px). Reduce element count or size."),
        _ => panic!("expected too large"),
    }
}

#[test]
fn pack_atlas_copies_parts() {
    let parts = vec![
        AtlasPart { png_bytes: png(2, 2, [255, 0, 0, 255]), width: 2, height: 2 },
        AtlasPart { png_bytes: png(3, 4, [0, 255, 0, 255]), width: 3, height: 4 },
    ];
    let (bytes, regions) = pack_atlas(&parts, 1).ok().unwrap();
    assert_eq!(regions.len(), 2);
    assert_eq!((regions[1].x, regions[1].y, regions[1].width, regions[1].height), (1, 1, 3, 4));
    assert_eq!((regions[0].x, regions[0].y, regions[0].width, regions[0].height), (5, 1, 2, 2));
    let img = decode(&bytes);
    assert_eq!(img.dimensions(), (64, 64));
    assert_eq!(img.get_pixel(1, 1).0, [0, 255, 0, 255]);
    assert_eq!(img.get_pixel(5, 1).0, [255, 0, 0, 255]);
    assert_eq!(img.get_pixel(0, 0).0, [0, 0, 0, 0]);
}

#[test]
fn pack_atlas_empty_is_one_pixel() {
    let (bytes, regions) = pack_atlas(&Vec::new(), 2).ok().unwrap();
    assert!(regions.is_empty());
    let img = decode(&bytes);
    assert_eq!(img.dimensions(), (1, 1));
    assert_eq!(img.get_pixel(0, 0).0, [0, 0, 0, 0]);
}

#[test]
fn pack_atlas_bad_part() {
    let parts = vec![AtlasPart { png_bytes: vec![1, 2, 3], width: 2, height: 2 }];
    match pack_atlas(&parts, 0) {
        Err(ExportError::Rasterize(m)) => assert!(m.starts_with("Failed to decode part PNG: ")),
        _ => panic!("expected a decode error"),
    }
}

#[test]
fn svg_renders_to_png() {
    let svg = r##"<svg xmlns="http://www.w3.org/2000/svg" width="4" height="4"><rect x="0" y="0" width="4" height="4" fill="#ff0000"/></svg>"##;
    let bytes = svg_to_png(svg, 4, 4).ok().unwrap();
    let img = decode(&bytes);
    assert_eq!(img.dimensions(), (4, 4));
    assert_eq!(img.get_pixel(2, 2).0, [255, 0, 0, 255]);
}

#[test]
fn svg_errors() {
    assert!(rasterize_message(svg_to_png("not svg", 4, 4)).starts_with("Failed to parse SVG: "));
    let svg = r#"<svg xmlns="http://www.w3.org/2000/svg" width="4" height="4"></svg>"#;
    assert_eq!(rasterize_message(svg_to_png(svg, 0, 4)), "Failed to create pixel buffer");
}

#[test]
fn layout_shapes() {
    assert_eq!(compute_layout(ExportLayout::Row, 7), (7, 1));
    assert_eq!(compute_layout(ExportLayout::Column, 7), (1, 7));
    assert_eq!(compute_layout(ExportLayout::Grid, 10), (4, 3));
    assert_eq!(compute_layout(ExportLayout::Grid, 9), (3, 3));
    assert_eq!(compute_layout(ExportLayout::Grid, 1), (1, 1));
    assert_eq!(compute_layout(ExportLayout::Grid, 0), (1, 1));
}

#[test]
fn ron_text() {
    let ron = generate_texture_atlas_ron(32, 16, 4, 3, 1, 2);
    let expected = "// TextureAtlasLayout::from_grid() parameters\n\
// Usage: TextureAtlasLayout::from_grid(\n\
//     UVec2::new(32, 16),  // tile_size\n\
//     4,                         // columns\n\
//     3,                            // rows\n\
//     Some(UVec2::new(1, 2)),  // padding\n\
//     Some(UVec2::new(1, 2)),  // offset\n\
// )\n\
(\n\
tile_size: (32, 16),\n\
columns: 4,\n\
rows: 3,\n\
padding: (1, 2),\n\
offset: (1, 2),\n\
)\n";
    assert_eq!(ron, expected);
}

#[test]
fn filenames() {
    assert_eq!(sanitize_filename("My Sprite!"), "My_Sprite_");
    assert_eq!(sanitize_filename("walk-cycle_2"), "walk-cycle_2");
    assert_eq!(sanitize_filename("été/α"), "été_α");
    let once = sanitize_filename("a b/c");
    assert_eq!(sanitize_filename(&once), once);
}

fn raster(w: u32, h: u32, opaque: &[(u32, u32)]) -> RgbaImage {
    let mut pixels = vec![0u8; (4 * w * h) as usize];
    for &(x, y) in opaque {
        pixels[(4 * (y * w + x) + 3) as usize] = 255;
    }
    RgbaImage { width: w, height: h, pixels }
}

#[test]
fn uniform_trim() {
    let frames = vec![raster(8, 8, &[(2, 3)]), raster(8, 8, &[(5, 1), (4, 6)])];
    assert_eq!(compute_uniform_trim(&frames, 8, 8), (2, 1, 4, 6));
    let clear = vec![raster(8, 8, &[])];
    assert_eq!(compute_uniform_trim(&clear, 8, 8), (0, 0, 8, 8));
    assert_eq!(compute_uniform_trim(&Vec::new(), 0, 0), (0, 0, 1, 1));
}

fn settings(layout: ExportLayout, trim: bool, padding: u32) -> ExportSettings {
    ExportSettings { mode: ExportMode::Spritesheet, fps: 12, layout, trim, padding }
}

#[test]
fn spritesheet_grid() {
    let frames = vec![png(4, 4, [9, 9, 9, 255]), png(4, 4, [7, 7, 7, 255]), png(4, 4, [5, 5, 5, 255])];
    let sheet = build_spritesheet(&frames, 4, 4, &settings(ExportLayout::Grid, false, 1)).ok().unwrap();
    assert_eq!((sheet.columns, sheet.rows), (2, 2));
    assert_eq!((sheet.tile_w, sheet.tile_h), (4, 4));
    assert_eq!((sheet.width, sheet.height), (11, 11));
    let img = decode(&sheet.png);
    assert_eq!(img.dimensions(), (11, 11));
    assert_eq!(img.get_pixel(1, 1).0, [9, 9, 9, 255]);
    assert_eq!(img.get_pixel(6, 1).0, [7, 7, 7, 255]);
    assert_eq!(img.get_pixel(1, 6).0, [5, 5, 5, 255]);
    assert_eq!(img.get_pixel(6, 6).0, [0, 0, 0, 0]);
    assert_eq!(img.get_pixel(0, 0).0, [0, 0, 0, 0]);
    assert!(sheet.ron.contains("columns: 2,\nrows: 2,"));
}

#[test]
fn spritesheet_bad_frame() {
    let frames = vec![vec![0u8; 5]];
    match build_spritesheet(&frames, 4, 4, &settings(ExportLayout::Row, true, 0)) {
        Err(ExportError::Rasterize(m)) => assert!(m.starts_with("Failed to decode frame PNG: ")),
        _ => panic!("expected a decode error"),
    }
}

#[test]
fn css_colors() {
    let p = Palette::default_palette();
    assert!(resolve_palette_color(0, &p).is_none());
    assert!(resolve_palette_color(33, &p).is_none());
    match resolve_palette_color(1, &p) {
        Some(CssColor::Hex(h)) => assert_eq!(h, "#7b334c"),
        _ => panic!("expected a hex color"),
    }
    let q = Palette { name: "q".to_string(), colors: vec![PaletteColor::transparent(), PaletteColor { r: 1, g: 2, b: 3, a: 128 }] };
    match resolve_palette_color(1, &q) {
        Some(CssColor::Rgba { r, g, b, a }) => assert_eq!((r, g, b, a), (1, 2, 3, 128)),
        _ => panic!("expected an rgba color"),
    }
}

#[test]
fn error_text() {
    assert_eq!(ExportError::Rasterize("boom".to_string()).describe(), "Rasterization error: boom");
    assert_eq!(ExportError::Ron("x".to_string()).describe(), "RON export error: x");
    let io = ExportError::Io(std::io::Error::new(std::io::ErrorKind::Other, "disk"));
    assert_eq!(io.describe(), "IO error: disk");
}

#[test]
fn skin_overrides_resolve_element_colors() {
    let mut e = StrokeElement::new(vec!["v0".to_string()], 3, false);
    e.id = "e1".to_string();
    e.fill_color_index = 5;
    let own = ResolvedVisuals { stroke_color_index: 3, fill_color_index: 5 };
    assert_eq!(resolve_element_visuals(&e, None), own);
    let skin = Skin {
        id: "s".to_string(),
        name: "Red".to_string(),
        overrides: vec![
            SkinOverride { element_id: "other".to_string(), stroke_color_index: Some(9), fill_color_index: Some(9) },
            SkinOverride { element_id: "e1".to_string(), stroke_color_index: Some(7), fill_color_index: None },
            SkinOverride { element_id: "e1".to_string(), stroke_color_index: Some(8), fill_color_index: Some(8) },
        ],
    };
    assert_eq!(resolve_element_visuals(&e, Some(&skin)), ResolvedVisuals { stroke_color_index: 7, fill_color_index: 5 });
    let empty = Skin { id: "t".to_string(), name: "Plain".to_string(), overrides: vec![] };
    assert_eq!(resolve_element_visuals(&e, Some(&empty)), own);
}

#[test]
fn ik_chains_listed_once_at_first_occurrence() {
    let ids = vec![
        vec!["arm".to_string(), "leg".to_string()],
        vec![],
        vec!["leg".to_string(), "tail".to_string(), "arm".to_string()],
    ];
    assert_eq!(ik_chain_export_order(&ids), vec![(0, 0), (0, 1), (2, 1)]);
    assert!(ik_chain_export_order(&Vec::new()).is_empty());
}

#[test]
fn layers_with_dynamics_in_order() {
    let none = LayerDynamicsFlags { volume_preserve: false, has_look_at: false, has_physics: false, n_procedural: 0 };
    let layers = vec![
        none,
        LayerDynamicsFlags { has_physics: true, ..none },
        none,
        LayerDynamicsFlags { n_procedural: 2, ..none },
        LayerDynamicsFlags { volume_preserve: true, has_look_at: true, ..none },
    ];
    assert_eq!(dynamic_layer_indices(&layers), vec![1, 3, 4]);
}

#[test]
fn rasterized_svg_has_requested_size() {
    let svg = r#"<svg xmlns="http://www.w3.org/2000/svg" width="10" height="10"><rect width="10" height="10" fill="red"/></svg>"#;
    let bytes = svg_to_png(svg, 7, 3).ok().unwrap();
    let img = image::load_from_memory(&bytes).unwrap();
    assert_eq!((img.width(), img.height()), (7, 3));
}

fn atlas_error(r: Result<(Vec<u8>, Vec<messy_grapefruit::export::ron_meta::AtlasRegion>), ExportError>) -> String {
    match r {
        Err(ExportError::Rasterize(m)) => m,
        _ => panic!("expected a rasterize error"),
    }
}

#[test]
fn pack_atlas_empty_any_padding() {
    for padding in [0u32, 1 << 25, u32::MAX] {
        let (bytes, regions) = pack_atlas(&Vec::new(), padding).ok().unwrap();
        assert!(regions.is_empty());
        let img = decode(&bytes);
        assert_eq!(img.dimensions(), (1, 1));
        assert_eq!(img.get_pixel(0, 0).0, [0, 0, 0, 0]);
    }
}

#[test]
fn pack_atlas_large_padding_is_too_large() {
    let too_large = "Atlas too large (>8192px). Reduce element count or size.";
    let part = || AtlasPart { png_bytes: png(2, 2, [255, 0, 0, 255]), width: 2, height: 2 };
    // the first side (2^26) cannot hold the padded part, and doubling passes 8192
    assert_eq!(atlas_error(pack_atlas(&vec![part()], 1 << 25)), too_large);
    // a padded area over 2^52
    assert_eq!(atlas_error(pack_atlas(&vec![part()], 1 << 27)), too_large);
}
