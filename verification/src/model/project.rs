use vstd::prelude::*;
use crate::order::{stable_order, stable_sorted};
use vstd::utf8::{encode_utf8, is_char_boundary};
use vstd::string::StringSliceAdditionalSpecFns;

verus! {

/// Editor color theme.
#[derive(Debug, Clone, Copy, PartialEq, Eq, Structural)]
pub enum Theme {
    Dark,
    Light,
}

/// Canvas grid display mode.
#[derive(Debug, Clone, Copy, PartialEq, Eq, Structural)]
pub enum GridMode {
    Off,
    Straight,
    Isometric,
}

/// Which kind of export a project produces.
#[derive(Debug, Clone, Copy, PartialEq, Eq, Structural)]
pub enum ExportMode {
    Bone,
    Spritesheet,
}

/// How spritesheet frames are laid out.
#[derive(Debug, Clone, Copy, PartialEq, Eq, Structural)]
pub enum ExportLayout {
    Row,
    Column,
    Grid,
}

/// Export settings stored with a project.
#[derive(Debug, Clone, Copy)]
pub struct ExportSettings {
    pub mode: ExportMode,
    pub fps: u32,
    pub layout: ExportLayout,
    pub trim: bool,
    pub padding: u32,
}

/// One palette entry: 8-bit RGBA.
#[derive(Debug, Clone, Copy, PartialEq, Eq, Structural)]
pub struct PaletteColor {
    pub r: u8,
    pub g: u8,
    pub b: u8,
    pub a: u8,
}

/// Value of one ASCII hexadecimal digit, in either case.
pub open spec fn hex_digit_value(c: u8) -> Option<u8> {
    if 0x30 <= c <= 0x39 {
        Some((c - 0x30) as u8)
    } else if 0x61 <= c <= 0x66 {
        Some((c - 0x61 + 10) as u8)
    } else if 0x41 <= c <= 0x46 {
        Some((c - 0x41 + 10) as u8)
    } else {
        None
    }
}

/// A two-byte radix-16 field read as `u8`: two hex digits, or a `+` sign
/// followed by one hex digit.
pub open spec fn hex_byte_value(c0: u8, c1: u8) -> Option<u8> {
    if c0 == 0x2b {
        hex_digit_value(c1)
    } else {
        match (hex_digit_value(c0), hex_digit_value(c1)) {
            (Some(h), Some(l)) => Some((h * 16 + l) as u8),
            _ => None,
        }
    }
}

/// The bytes left after removing every leading `#`.
pub open spec fn without_leading_hashes(b: Seq<u8>) -> Seq<u8>
    decreases b.len(),
{
    if b.len() > 0 && b[0] == 0x23 {
        without_leading_hashes(b.drop_first())
    } else {
        b
    }
}

/// A hex color of six bytes (after its leading `#`s) that is cut inside a
/// multi-byte character where its first or second field ends.
pub open spec fn hex_fields_split_a_char(b: Seq<u8>) -> bool {
    let t = without_leading_hashes(b);
    &&& t.len() == 6
    &&& (!is_char_boundary(t, 2) || (hex_byte_value(t[0], t[1]) is Some && !is_char_boundary(t, 4)))
}

/// The opaque color written as `rrggbb` (any number of leading `#`), if the text is one.
pub open spec fn color_of_hex(b: Seq<u8>) -> Option<PaletteColor> {
    let t = without_leading_hashes(b);
    if t.len() != 6 {
        None
    } else {
        match (hex_byte_value(t[0], t[1]), hex_byte_value(t[2], t[3]), hex_byte_value(t[4], t[5])) {
            (Some(r), Some(g), Some(bl)) => Some(PaletteColor { r, g, b: bl, a: 255 }),
            _ => None,
        }
    }
}

fn hex_digit(c: u8) -> (r: Option<u8>)
    ensures
        r == hex_digit_value(c),
{
    if 0x30 <= c && c <= 0x39 {
        Some(c - 0x30)
    } else if 0x61 <= c && c <= 0x66 {
        Some(c - 0x61 + 10)
    } else if 0x41 <= c && c <= 0x46 {
        Some(c - 0x41 + 10)
    } else {
        None
    }
}

fn hex_byte(c0: u8, c1: u8) -> (r: Option<u8>)
    ensures
        r == hex_byte_value(c0, c1),
{
    if c0 == 0x2b {
        hex_digit(c1)
    } else {
        match (hex_digit(c0), hex_digit(c1)) {
            (Some(h), Some(l)) => Some(h * 16 + l),
            _ => None,
        }
    }
}

impl PaletteColor {
    pub open spec fn opaque(r: u8, g: u8, b: u8) -> PaletteColor {
        PaletteColor { r, g, b, a: 255 }
    }

    pub open spec fn clear() -> PaletteColor {
        PaletteColor { r: 0, g: 0, b: 0, a: 0 }
    }

    /// An opaque color.
    pub fn new(r: u8, g: u8, b: u8) -> (c: Self)
        ensures
            c == Self::opaque(r, g, b),
    {
        Self { r, g, b, a: 255 }
    }

    /// The fully transparent color (palette index 0).
    pub fn transparent() -> (c: Self)
        ensures
            c == Self::clear(),
    {
        Self { r: 0, g: 0, b: 0, a: 0 }
    }

    /// Parse `rrggbb` with any number of leading `#` into an opaque color.
    pub fn from_hex(hex: &str) -> (r: Option<Self>)
        requires
            !hex_fields_split_a_char(hex.spec_bytes()),
        ensures
            r == color_of_hex(hex.spec_bytes()),
    {
        let b = hex.as_bytes();
        let n = b.len();
        let mut k: usize = 0;
        assert(b@.subrange(0, n as int) =~= b@);
        while k < n && b[k] == 0x23
            invariant
                n == b@.len(),
                k <= n,
                without_leading_hashes(b@) == without_leading_hashes(b@.subrange(k as int, n as int)),
            decreases n - k,
        {
            assert(b@.subrange(k as int, n as int).drop_first() =~= b@.subrange(k + 1, n as int));
            k = k + 1;
        }
        assert(without_leading_hashes(b@.subrange(k as int, n as int)) == b@.subrange(k as int, n as int));
        if n - k != 6 {
            return None;
        }
        let r = match hex_byte(b[k], b[k + 1]) {
            Some(v) => v,
            None => return None,
        };
        let g = match hex_byte(b[k + 2], b[k + 3]) {
            Some(v) => v,
            None => return None,
        };
        let bl = match hex_byte(b[k + 4], b[k + 5]) {
            Some(v) => v,
            None => return None,
        };
        Some(Self::new(r, g, bl))
    }
}


/// The colors of a list of `rrggbb` texts, skipping those that are not colors.
pub open spec fn hex_list_colors(hexes: Seq<String>, upto: int) -> Seq<PaletteColor>
    decreases upto,
{
    if upto <= 0 {
        Seq::empty()
    } else {
        let prev = hex_list_colors(hexes, upto - 1);
        match color_of_hex(encode_utf8(hexes[upto - 1]@)) {
            Some(c) => prev.push(c),
            None => prev,
        }
    }
}

/// Parse a list of hex color texts (as a palette service sends them), keeping the
/// ones that `PaletteColor::from_hex` accepts, in order.
pub fn colors_from_hex_list(hexes: &Vec<String>) -> (r: Vec<PaletteColor>)
    requires
        forall|i: int| 0 <= i < hexes@.len() ==> !hex_fields_split_a_char(#[trigger] encode_utf8(hexes@[i]@)),
    ensures
        r@ == hex_list_colors(hexes@, hexes@.len() as int),
{
    let mut out: Vec<PaletteColor> = Vec::new();
    let mut i: usize = 0;
    while i < hexes.len()
        invariant
            i <= hexes@.len(),
            forall|k: int| 0 <= k < hexes@.len() ==> !hex_fields_split_a_char(#[trigger] encode_utf8(hexes@[k]@)),
            out@ == hex_list_colors(hexes@, i as int),
        decreases hexes@.len() - i,
    {
        assert(!hex_fields_split_a_char(encode_utf8(hexes@[i as int]@)));
        match PaletteColor::from_hex(hexes[i].as_str()) {
            Some(c) => out.push(c),
            None => {},
        }
        i = i + 1;
    }
    out
}

/// A lenient reading of a hex color: at least six bytes after the leading `#`s,
/// each of the first three two-byte fields read as radix 16, 0 when unreadable.
pub open spec fn lenient_hex_color(b: Seq<u8>) -> Option<PaletteColor> {
    let t = without_leading_hashes(b);
    if t.len() < 6 {
        None
    } else {
        let f = |x: Option<u8>| match x { Some(v) => v, None => 0u8 };
        Some(PaletteColor {
            r: f(hex_byte_value(t[0], t[1])),
            g: f(hex_byte_value(t[2], t[3])),
            b: f(hex_byte_value(t[4], t[5])),
            a: 255,
        })
    }
}

/// The two-byte fields of a hex color text of at least six bytes end on character
/// boundaries.
pub open spec fn hex_fields_on_boundaries(b: Seq<u8>) -> bool {
    let t = without_leading_hashes(b);
    t.len() >= 6 ==> is_char_boundary(t, 2) && is_char_boundary(t, 4) && is_char_boundary(t, 6)
}

/// The transparent entry followed by the leniently read colors of a list of texts.
pub open spec fn lenient_palette(hexes: Seq<String>, upto: int) -> Seq<PaletteColor>
    decreases upto,
{
    if upto <= 0 {
        seq![PaletteColor { r: 0, g: 0, b: 0, a: 0 }]
    } else {
        let prev = lenient_palette(hexes, upto - 1);
        match lenient_hex_color(encode_utf8(hexes[upto - 1]@)) {
            Some(c) => prev.push(c),
            None => prev,
        }
    }
}

fn or_zero(x: Option<u8>) -> (v: u8)
    ensures
        v == match x { Some(v) => v, None => 0u8 },
{
    match x {
        Some(v) => v,
        None => 0,
    }
}

fn lenient_color(hex: &str) -> (r: Option<PaletteColor>)
    ensures
        r == lenient_hex_color(hex.spec_bytes()),
{
    let b = hex.as_bytes();
    let n = b.len();
    let mut k: usize = 0;
    assert(b@.subrange(0, n as int) =~= b@);
    while k < n && b[k] == 0x23
        invariant
            n == b@.len(),
            k <= n,
            without_leading_hashes(b@) == without_leading_hashes(b@.subrange(k as int, n as int)),
        decreases n - k,
    {
        assert(b@.subrange(k as int, n as int).drop_first() =~= b@.subrange(k + 1, n as int));
        k = k + 1;
    }
    assert(without_leading_hashes(b@.subrange(k as int, n as int)) == b@.subrange(k as int, n as int));
    if n - k < 6 {
        return None;
    }
    let r = or_zero(hex_byte(b[k], b[k + 1]));
    let g = or_zero(hex_byte(b[k + 2], b[k + 3]));
    let bl = or_zero(hex_byte(b[k + 4], b[k + 5]));
    Some(PaletteColor { r, g, b: bl, a: 255 })
}

/// Build a palette from a list of hex color texts: the transparent entry first, then
/// one opaque color per text of at least six bytes (after its leading `#`s), each
/// two-digit field that does not read as radix 16 taken as 0.
pub fn palette_from_hex_list(hexes: &Vec<String>) -> (r: Vec<PaletteColor>)
    requires
        forall|i: int| 0 <= i < hexes@.len() ==> hex_fields_on_boundaries(#[trigger] encode_utf8(hexes@[i]@)),
    ensures
        r@ == lenient_palette(hexes@, hexes@.len() as int),
{
    let mut out: Vec<PaletteColor> = Vec::new();
    out.push(PaletteColor::transparent());
    let mut i: usize = 0;
    while i < hexes.len()
        invariant
            i <= hexes@.len(),
            out@ == lenient_palette(hexes@, i as int),
        decreases hexes@.len() - i,
    {
        match lenient_color(hexes[i].as_str()) {
            Some(c) => out.push(c),
            None => {},
        }
        i = i + 1;
    }
    out
}

/// A named list of colors; index 0 is transparent by convention.
#[derive(Debug, Clone)]
pub struct Palette {
    pub name: String,
    pub colors: Vec<PaletteColor>,
}

/// The "Downgraded 32" palette by Polyphorge, after the transparent entry.
pub open spec fn downgraded_32() -> Seq<PaletteColor> {
    seq![
        PaletteColor { r: 0, g: 0, b: 0, a: 0 },
        PaletteColor { r: 0x7b, g: 0x33, b: 0x4c, a: 255 },
        PaletteColor { r: 0xa1, g: 0x4d, b: 0x55, a: 255 },
        PaletteColor { r: 0xc7, g: 0x73, b: 0x69, a: 255 },
        PaletteColor { r: 0xe3, g: 0xa0, b: 0x84, a: 255 },
        PaletteColor { r: 0xf2, g: 0xcb, b: 0x9b, a: 255 },
        PaletteColor { r: 0xd3, g: 0x7b, b: 0x86, a: 255 },
        PaletteColor { r: 0xaf, g: 0x5d, b: 0x8b, a: 255 },
        PaletteColor { r: 0x80, g: 0x40, b: 0x85, a: 255 },
        PaletteColor { r: 0x5b, g: 0x33, b: 0x74, a: 255 },
        PaletteColor { r: 0x41, g: 0x20, b: 0x51, a: 255 },
        PaletteColor { r: 0x5c, g: 0x48, b: 0x6a, a: 255 },
        PaletteColor { r: 0x88, g: 0x7d, b: 0x8d, a: 255 },
        PaletteColor { r: 0xb8, g: 0xb4, b: 0xb2, a: 255 },
        PaletteColor { r: 0xdc, g: 0xda, b: 0xc9, a: 255 },
        PaletteColor { r: 0xff, g: 0xff, b: 0xe0, a: 255 },
        PaletteColor { r: 0xb6, g: 0xf5, b: 0xdb, a: 255 },
        PaletteColor { r: 0x89, g: 0xd9, b: 0xd9, a: 255 },
        PaletteColor { r: 0x72, g: 0xb6, b: 0xcf, a: 255 },
        PaletteColor { r: 0x5c, g: 0x8b, b: 0xa8, a: 255 },
        PaletteColor { r: 0x4e, g: 0x66, b: 0x79, a: 255 },
        PaletteColor { r: 0x46, g: 0x49, b: 0x69, a: 255 },
        PaletteColor { r: 0x44, g: 0x35, b: 0x5d, a: 255 },
        PaletteColor { r: 0x3d, g: 0x00, b: 0x3d, a: 255 },
        PaletteColor { r: 0x62, g: 0x17, b: 0x48, a: 255 },
        PaletteColor { r: 0x94, g: 0x2c, b: 0x4b, a: 255 },
        PaletteColor { r: 0xc7, g: 0x42, b: 0x4f, a: 255 },
        PaletteColor { r: 0xe0, g: 0x6b, b: 0x51, a: 255 },
        PaletteColor { r: 0xf2, g: 0xa5, b: 0x61, a: 255 },
        PaletteColor { r: 0xfc, g: 0xef, b: 0x8d, a: 255 },
        PaletteColor { r: 0xb1, g: 0xd4, b: 0x80, a: 255 },
        PaletteColor { r: 0x80, g: 0xb8, b: 0x78, a: 255 },
        PaletteColor { r: 0x65, g: 0x8d, b: 0x78, a: 255 }
    ]
}

/// Color at `index`, or transparent past the end of `colors`.
pub open spec fn color_at(colors: Seq<PaletteColor>, index: int) -> PaletteColor {
    if 0 <= index < colors.len() {
        colors[index]
    } else {
        PaletteColor::clear()
    }
}

impl Palette {
    /// The built-in palette: Downgraded 32, transparent at index 0.
    pub fn default_palette() -> (p: Self)
        ensures
            p.name@ == "Downgraded 32"@,
            p.colors@ == downgraded_32(),
    {
        let colors = vec![
                PaletteColor::transparent(),           //  0: transparent
                PaletteColor::new(0x7b, 0x33, 0x4c),  //  1: #7b334c
                PaletteColor::new(0xa1, 0x4d, 0x55),  //  2: #a14d55
                PaletteColor::new(0xc7, 0x73, 0x69),  //  3: #c77369
                PaletteColor::new(0xe3, 0xa0, 0x84),  //  4: #e3a084
                PaletteColor::new(0xf2, 0xcb, 0x9b),  //  5: #f2cb9b
                PaletteColor::new(0xd3, 0x7b, 0x86),  //  6: #d37b86
                PaletteColor::new(0xaf, 0x5d, 0x8b),  //  7: #af5d8b
                PaletteColor::new(0x80, 0x40, 0x85),  //  8: #804085
                PaletteColor::new(0x5b, 0x33, 0x74),  //  9: #5b3374
                PaletteColor::new(0x41, 0x20, 0x51),  // 10: #412051
                PaletteColor::new(0x5c, 0x48, 0x6a),  // 11: #5c486a
                PaletteColor::new(0x88, 0x7d, 0x8d),  // 12: #887d8d
                PaletteColor::new(0xb8, 0xb4, 0xb2),  // 13: #b8b4b2
                PaletteColor::new(0xdc, 0xda, 0xc9),  // 14: #dcdac9
                PaletteColor::new(0xff, 0xff, 0xe0),  // 15: #ffffe0
                PaletteColor::new(0xb6, 0xf5, 0xdb),  // 16: #b6f5db
                PaletteColor::new(0x89, 0xd9, 0xd9),  // 17: #89d9d9
                PaletteColor::new(0x72, 0xb6, 0xcf),  // 18: #72b6cf
                PaletteColor::new(0x5c, 0x8b, 0xa8),  // 19: #5c8ba8
                PaletteColor::new(0x4e, 0x66, 0x79),  // 20: #4e6679
                PaletteColor::new(0x46, 0x49, 0x69),  // 21: #464969
                PaletteColor::new(0x44, 0x35, 0x5d),  // 22: #44355d
                PaletteColor::new(0x3d, 0x00, 0x3d),  // 23: #3d003d
                PaletteColor::new(0x62, 0x17, 0x48),  // 24: #621748
                PaletteColor::new(0x94, 0x2c, 0x4b),  // 25: #942c4b
                PaletteColor::new(0xc7, 0x42, 0x4f),  // 26: #c7424f
                PaletteColor::new(0xe0, 0x6b, 0x51),  // 27: #e06b51
                PaletteColor::new(0xf2, 0xa5, 0x61),  // 28: #f2a561
                PaletteColor::new(0xfc, 0xef, 0x8d),  // 29: #fcef8d
                PaletteColor::new(0xb1, 0xd4, 0x80),  // 30: #b1d480
                PaletteColor::new(0x80, 0xb8, 0x78),  // 31: #80b878
                PaletteColor::new(0x65, 0x8d, 0x78),  // 32: #658d78
            ];
        assert(colors@ =~= downgraded_32());
        Self { name: String::from_str("Downgraded 32"), colors }
    }

    /// The color at `index`; transparent when the palette has no such entry.
    pub fn get_color(&self, index: u8) -> (c: PaletteColor)
        ensures
            c == color_at(self.colors@, index as int),
    {
        if (index as usize) < self.colors.len() {
            self.colors[index as usize]
        } else {
            PaletteColor::transparent()
        }
    }
}

/// Palette indices for the five semantic theme color roles.
#[derive(Debug, Clone, Copy, PartialEq, Eq, Structural)]
pub struct ThemeColorIndices {
    pub panel_bg: u8,
    pub canvas_bg: u8,
    pub mid: u8,
    pub selected: u8,
    pub icon_text: u8,
}

impl ThemeColorIndices {
    /// The index of role `role` (0 panel, 1 canvas, 2 accent, 3 highlight, 4 text);
    /// 0 for any other role.
    pub open spec fn role(self, role: int) -> u8 {
        if role == 0 {
            self.panel_bg
        } else if role == 1 {
            self.canvas_bg
        } else if role == 2 {
            self.mid
        } else if role == 3 {
            self.selected
        } else if role == 4 {
            self.icon_text
        } else {
            0
        }
    }

    /// These indices with role `role` set to `index` (unchanged for an unknown role).
    pub open spec fn with_role(self, role: int, index: u8) -> ThemeColorIndices {
        if role == 0 {
            ThemeColorIndices { panel_bg: index, ..self }
        } else if role == 1 {
            ThemeColorIndices { canvas_bg: index, ..self }
        } else if role == 2 {
            ThemeColorIndices { mid: index, ..self }
        } else if role == 3 {
            ThemeColorIndices { selected: index, ..self }
        } else if role == 4 {
            ThemeColorIndices { icon_text: index, ..self }
        } else {
            self
        }
    }

    pub open spec fn uniform(index: u8) -> ThemeColorIndices {
        ThemeColorIndices { panel_bg: index, canvas_bg: index, mid: index, selected: index, icon_text: index }
    }

    /// Default dark theme indices for the Downgraded 32 palette.
    pub fn default_dark() -> (t: Self)
        ensures
            t == (ThemeColorIndices { panel_bg: 23, canvas_bg: 10, mid: 19, selected: 27, icon_text: 5 }),
    {
        Self { panel_bg: 23, canvas_bg: 10, mid: 19, selected: 27, icon_text: 5 }
    }

    /// Default light theme indices for the Downgraded 32 palette.
    pub fn default_light() -> (t: Self)
        ensures
            t == (ThemeColorIndices { panel_bg: 15, canvas_bg: 5, mid: 31, selected: 1, icon_text: 23 }),
    {
        Self { panel_bg: 15, canvas_bg: 5, mid: 31, selected: 1, icon_text: 23 }
    }

    /// Display name of each role, in role order.
    pub fn role_names() -> (names: Vec<&'static str>)
        ensures
            names@.len() == 5,
            names@[0]@ == "Panel"@,
            names@[1]@ == "Canvas"@,
            names@[2]@ == "Accent"@,
            names@[3]@ == "Highlight"@,
            names@[4]@ == "Text"@,
    {
        vec!["Panel", "Canvas", "Accent", "Highlight", "Text"]
    }

    /// The index for a role by position (0..5); 0 for any other position.
    pub fn get(&self, role: usize) -> (i: u8)
        ensures
            i == self.role(role as int),
    {
        match role {
            0 => self.panel_bg,
            1 => self.canvas_bg,
            2 => self.mid,
            3 => self.selected,
            4 => self.icon_text,
            _ => 0,
        }
    }

    /// Set the index for a role by position (0..5); other positions change nothing.
    pub fn set(&mut self, role: usize, index: u8)
        ensures
            *final(self) == old(self).with_role(role as int, index),
    {
        match role {
            0 => self.panel_bg = index,
            1 => self.canvas_bg = index,
            2 => self.mid = index,
            3 => self.selected = index,
            4 => self.icon_text = index,
            _ => {},
        }
    }
}

/// Reading a role right after setting it gives the value set; the other roles keep theirs.
pub proof fn lemma_theme_role_set_get(t: ThemeColorIndices, role: int, other: int, index: u8)
    requires
        0 <= role < 5,
        other != role,
    ensures
        t.with_role(role, index).role(role) == index,
        t.with_role(role, index).role(other) == t.role(other),
{
}

/// Perceived brightness of a color, scaled by 1000 (299 R + 587 G + 114 B).
pub open spec fn luminance(c: PaletteColor) -> u64 {
    (299 * c.r + 587 * c.g + 114 * c.b) as u64
}

/// Positions of the visible colors of `colors[..upto]`, leaving out position 0.
pub open spec fn theme_candidates(colors: Seq<PaletteColor>, upto: int) -> Seq<int>
    decreases upto,
{
    if upto <= 1 {
        Seq::empty()
    } else {
        let prev = theme_candidates(colors, upto - 1);
        if colors[upto - 1].a > 0 {
            prev.push(upto - 1)
        } else {
            prev
        }
    }
}

/// Positions of the visible non-zero palette entries, darkest first (stable by position).
pub open spec fn by_luminance(colors: Seq<PaletteColor>) -> Seq<int> {
    let cands = theme_candidates(colors, colors.len() as int);
    let keys = cands.map_values(|i: int| luminance(colors[i]));
    stable_sorted(keys).map_values(|k: usize| cands[k as int])
}

/// `m * num / den` rounded to the nearest integer, halves upward.
pub open spec fn round_fraction(m: int, num: int, den: int) -> int {
    (2 * m * num + den) / (2 * den)
}

/// The palette index at fraction `num / den` of the way from darkest to lightest.
pub open spec fn luminance_pick(colors: Seq<PaletteColor>, num: int, den: int) -> u8 {
    let ranked = by_luminance(colors);
    ranked[round_fraction(ranked.len() - 1, num, den)] as u8
}

/// The (dark, light) theme indices picked from a palette by luminance rank.
pub open spec fn auto_theme_colors(colors: Seq<PaletteColor>) -> (ThemeColorIndices, ThemeColorIndices) {
    let ranked = by_luminance(colors);
    if ranked.len() < 5 {
        let fb: u8 = if ranked.len() == 0 { 1 } else { ranked[0] as u8 };
        (ThemeColorIndices::uniform(fb), ThemeColorIndices::uniform(fb))
    } else {
        (
            ThemeColorIndices {
                panel_bg: luminance_pick(colors, 0, 100),
                canvas_bg: luminance_pick(colors, 15, 100),
                mid: luminance_pick(colors, 50, 100),
                selected: luminance_pick(colors, 75, 100),
                icon_text: luminance_pick(colors, 90, 100),
            },
            ThemeColorIndices {
                panel_bg: luminance_pick(colors, 100, 100),
                canvas_bg: luminance_pick(colors, 85, 100),
                mid: luminance_pick(colors, 50, 100),
                selected: luminance_pick(colors, 25, 100),
                icon_text: luminance_pick(colors, 10, 100),
            },
        )
    }
}

fn pick_by_fraction(ranked: &Vec<u8>, num: u64, den: u64) -> (i: u8)
    requires
        ranked.len() >= 1,
        0 <= num <= den,
        1 <= den <= 100,
    ensures
        i == ranked@[round_fraction(ranked.len() - 1, num as int, den as int)],
{
    let m = (ranked.len() - 1) as u128;
    assert(m <= 0xffff_ffff_ffff_ffff);
    assert(2 * m * (num as u128) <= 200 * 0xffff_ffff_ffff_ffffu128) by (nonlinear_arith)
        requires m <= 0xffff_ffff_ffff_ffff, num <= 100;
    let pos = (2 * m * (num as u128) + (den as u128)) / (2 * (den as u128));
    assert(pos <= m) by (nonlinear_arith)
        requires
            pos == (2 * m * num + den) / (2 * den),
            0 <= num <= den,
            1 <= den,
    {
        assert(2 * m * num + den <= (2 * m + 1) * den) by (nonlinear_arith)
            requires num <= den, 0 <= m;
        assert((2 * m * num + den) / (2 * den) <= ((2 * m + 1) * den) / (2 * den)) by (nonlinear_arith)
            requires 2 * m * num + den <= (2 * m + 1) * den, 1 <= den;
        assert(((2 * m + 1) * den) / (2 * den) <= m) by (nonlinear_arith)
            requires 1 <= den, 0 <= m;
    }
    ranked[pos as usize]
}

/// Pick theme color indices from a palette by ranking its visible colors by luminance.
/// Luminance is compared exactly, so colors of equal luminance keep their palette
/// order; single-precision floating point can round two equal luminances apart (for
/// example (9, 11, 215) and (35, 3, 188)) and then ranks them the other way.
pub fn auto_pick_theme_colors(palette: &Palette) -> (r: (ThemeColorIndices, ThemeColorIndices))
    ensures
        r == auto_theme_colors(palette.colors@),
{
    let colors = &palette.colors;
    let n = colors.len();
    let mut cands: Vec<usize> = Vec::new();
    let mut keys: Vec<u64> = Vec::new();
    let mut i: usize = 1;
    proof {
        assert(theme_candidates(colors@, 1) =~= Seq::<int>::empty());
    }
    while i < n
        invariant
            n == colors.len(),
            1 <= i,
            i <= n || i == 1,
            cands@.len() == keys@.len(),
            cands@.len() == theme_candidates(colors@, i as int).len(),
            forall|k: int| 0 <= k < cands@.len() ==> cands@[k] as int == #[trigger] theme_candidates(colors@, i as int)[k],
            forall|k: int| 0 <= k < keys@.len() ==> #[trigger] keys@[k] == luminance(colors@[cands@[k] as int]),
        decreases n - i,
    {
        let c = colors[i];
        if c.a > 0 {
            cands.push(i);
            keys.push(299 * (c.r as u64) + 587 * (c.g as u64) + 114 * (c.b as u64));
        }
        i = i + 1;
    }
    let ghost cs = theme_candidates(colors@, n as int);
    proof {
        if n == 0 {
            assert(theme_candidates(colors@, 0) =~= Seq::<int>::empty());
        } else {
            assert(i == n);
        }
    }
    let ghost spec_keys = cs.map_values(|j: int| luminance(colors@[j]));
    assert(keys@ =~= spec_keys);
    let order = stable_order(&keys);
    let mut ranked: Vec<u8> = Vec::new();
    let mut k: usize = 0;
    while k < order.len()
        invariant
            order@ == stable_sorted(spec_keys),
            order@.len() == cands@.len(),
            cands@.len() == cs.len(),
            forall|q: int| 0 <= q < cands@.len() ==> cands@[q] as int == #[trigger] cs[q],
            forall|q: int| 0 <= q < order@.len() ==> #[trigger] order@[q] < cands@.len(),
            k <= order.len(),
            ranked@.len() == k,
            forall|q: int| 0 <= q < k ==> #[trigger] ranked@[q] == (cs[order@[q] as int] as u8),
        decreases order.len() - k,
    {
        ranked.push(cands[order[k]] as u8);
        k = k + 1;
    }
    let ghost spec_ranked = by_luminance(colors@);
    proof {
        assert(spec_ranked.len() == ranked@.len());
        assert forall|q: int| 0 <= q < ranked@.len() implies #[trigger] ranked@[q] == (spec_ranked[q] as u8) by {}
    }
    if ranked.len() < 5 {
        let fb: u8 = if ranked.len() == 0 { 1 } else { ranked[0] };
        let t = ThemeColorIndices { panel_bg: fb, canvas_bg: fb, mid: fb, selected: fb, icon_text: fb };
        return (t, t);
    }
    let dark = ThemeColorIndices {
        panel_bg: pick_by_fraction(&ranked, 0, 100),
        canvas_bg: pick_by_fraction(&ranked, 15, 100),
        mid: pick_by_fraction(&ranked, 50, 100),
        selected: pick_by_fraction(&ranked, 75, 100),
        icon_text: pick_by_fraction(&ranked, 90, 100),
    };
    let light = ThemeColorIndices {
        panel_bg: pick_by_fraction(&ranked, 100, 100),
        canvas_bg: pick_by_fraction(&ranked, 85, 100),
        mid: pick_by_fraction(&ranked, 50, 100),
        selected: pick_by_fraction(&ranked, 25, 100),
        icon_text: pick_by_fraction(&ranked, 10, 100),
    };
    (dark, light)
}

/// Editor-wide preferences stored with a project.
#[derive(Debug, Clone, Copy, PartialEq, Eq, Structural)]
pub struct EditorPreferences {
    pub theme: Theme,
    pub grid_size: u32,
    pub grid_mode: GridMode,
    pub show_dots: bool,
    pub dark_theme_colors: ThemeColorIndices,
    pub light_theme_colors: ThemeColorIndices,
}

impl Default for EditorPreferences {
    fn default() -> (p: Self)
        ensures
            p.theme == Theme::Dark,
            p.grid_size == 8,
            p.grid_mode == GridMode::Off,
            p.show_dots,
            p.dark_theme_colors == (ThemeColorIndices { panel_bg: 23, canvas_bg: 10, mid: 19, selected: 27, icon_text: 5 }),
            p.light_theme_colors == (ThemeColorIndices { panel_bg: 15, canvas_bg: 5, mid: 31, selected: 1, icon_text: 23 }),
    {
        Self {
            theme: Theme::Dark,
            grid_size: 8,
            grid_mode: GridMode::Off,
            show_dots: true,
            dark_theme_colors: ThemeColorIndices::default_dark(),
            light_theme_colors: ThemeColorIndices::default_light(),
        }
    }
}

} // verus!
