//! Color palettes, icons, spacing and box drawing styles for console output.
use vstd::prelude::*;
use vstd::utf8::*;
use crate::text::{
    chars_of, decimal, hex2, parse_hex_range, parse_hex_usize, push_char, push_decimal,
    push_hex2, push_str, repeat_char, str_eq, to_lowercase, to_uppercase, unicode_lowercase,
    unicode_uppercase, utf8_str,
};
use crate::scan::copy_range;

verus! {

/// A color in RGB form.
#[derive(Debug, Clone, Copy, PartialEq, Eq, Structural)]
pub struct Color {
    /// Red component.
    pub r: u8,
    /// Green component.
    pub g: u8,
    /// Blue component.
    pub b: u8,
}

/// The color of a `0xRRGGBB` value.
pub open spec fn hex_color(hex: u32) -> Color {
    Color { r: ((hex / 65536) % 256) as u8, g: ((hex / 256) % 256) as u8, b: (hex % 256) as u8 }
}

/// `#rrggbb` in lowercase.
pub open spec fn hex_text(r: u8, g: u8, b: u8) -> Seq<char> {
    seq!['#'] + hex2(r) + hex2(g) + hex2(b)
}

/// An ANSI 24-bit color escape: `ESC [ <kind> ; 2 ; r ; g ; b m`.
pub open spec fn ansi_rgb(kind: Seq<char>, c: Color) -> Seq<char> {
    seq!['\x1b', '['] + kind + ";2;"@ + decimal(c.r as nat) + ";"@ + decimal(c.g as nat) + ";"@
        + decimal(c.b as nat) + "m"@
}

impl Color {
    /// A color from its components.
    pub fn new(r: u8, g: u8, b: u8) -> (c: Self)
        ensures
            c == (Color { r, g, b }),
    {
        Color { r, g, b }
    }

    /// A color from a `0xRRGGBB` value.
    pub fn from_hex(hex: u32) -> (c: Self)
        ensures
            c == hex_color(hex),
    {
        Color { r: ((hex / 65536) % 256) as u8, g: ((hex / 256) % 256) as u8, b: (hex % 256) as u8 }
    }

    /// The color as `#rrggbb`.
    pub fn to_hex(&self) -> (s: String)
        ensures
            s@ == hex_text(self.r, self.g, self.b),
    {
        rgb_to_hex((self.r, self.g, self.b))
    }

    /// The components as a tuple.
    pub fn to_rgb(&self) -> (t: (u8, u8, u8))
        ensures
            t == (self.r, self.g, self.b),
    {
        (self.r, self.g, self.b)
    }

    fn to_ansi(&self, kind: &str) -> (s: String)
        ensures
            s@ == ansi_rgb(kind@, *self),
    {
        let mut s = String::new();
        push_char(&mut s, '\x1b');
        push_char(&mut s, '[');
        push_str(&mut s, kind);
        push_str(&mut s, ";2;");
        push_decimal(&mut s, self.r as u64);
        push_str(&mut s, ";");
        push_decimal(&mut s, self.g as u64);
        push_str(&mut s, ";");
        push_decimal(&mut s, self.b as u64);
        push_str(&mut s, "m");
        assert(s@ =~= ansi_rgb(kind@, *self));
        s
    }

    /// The ANSI 24-bit foreground escape for this color.
    pub fn to_ansi_fg(&self) -> (s: String)
        ensures
            s@ == ansi_rgb("38"@, *self),
    {
        self.to_ansi("38")
    }

    /// The ANSI 24-bit background escape for this color.
    pub fn to_ansi_bg(&self) -> (s: String)
        ensures
            s@ == ansi_rgb("48"@, *self),
    {
        self.to_ansi("48")
    }
}

/// An RGB tuple as `#rrggbb`.
pub fn rgb_to_hex(rgb: (u8, u8, u8)) -> (s: String)
    ensures
        s@ == hex_text(rgb.0, rgb.1, rgb.2),
{
    let mut s = String::new();
    push_char(&mut s, '#');
    push_hex2(&mut s, rgb.0);
    push_hex2(&mut s, rgb.1);
    push_hex2(&mut s, rgb.2);
    assert(s@ =~= hex_text(rgb.0, rgb.1, rgb.2));
    s
}

/// The bytes of a color text after its leading `#` characters.
pub open spec fn strip_hashes(b: Seq<u8>) -> Seq<u8>
    decreases b.len(),
{
    if b.len() > 0 && b[0] == 35u8 {
        strip_hashes(b.drop_first())
    } else {
        b
    }
}

/// The value of a byte range read as by `u8::from_str_radix(.., 16)`.
pub open spec fn hex_u8_of(b: Seq<u8>) -> Option<u8> {
    match parse_hex_usize(decode_utf8(b)) {
        Some(v) => if v <= 255 { Some(v as u8) } else { None },
        None => None,
    }
}

/// Slicing the digits of a color text falls on character boundaries.
pub open spec fn hex_cuts_ok(s: Seq<char>) -> bool {
    let h = strip_hashes(encode_utf8(s));
    (h.len() == 6 ==> valid_utf8(h.subrange(0, 2)) && valid_utf8(h.subrange(2, 4)) && valid_utf8(h.subrange(4, 6)))
        && (h.len() == 3 ==> valid_utf8(h.subrange(0, 1)) && valid_utf8(h.subrange(1, 2)) && valid_utf8(h.subrange(2, 3)))
}

/// The color a `#RRGGBB` or `#RGB` text (leading `#` optional) denotes.
pub open spec fn hex_rgb_of(s: Seq<char>) -> Option<(u8, u8, u8)> {
    let h = strip_hashes(encode_utf8(s));
    if h.len() == 6 {
        match (hex_u8_of(h.subrange(0, 2)), hex_u8_of(h.subrange(2, 4)), hex_u8_of(h.subrange(4, 6))) {
            (Some(r), Some(g), Some(b)) => Some((r, g, b)),
            _ => None,
        }
    } else if h.len() == 3 {
        match (hex_u8_of(h.subrange(0, 1)), hex_u8_of(h.subrange(1, 2)), hex_u8_of(h.subrange(2, 3))) {
            (Some(r), Some(g), Some(b)) => if r <= 15 && g <= 15 && b <= 15 {
                Some(((r * 17) as u8, (g * 17) as u8, (b * 17) as u8))
            } else {
                None
            },
            _ => None,
        }
    } else {
        None
    }
}

proof fn lemma_hex2_bytes(x: u8)
    ensures
        encode_utf8(hex2(x)).len() == 2,
        valid_utf8(encode_utf8(hex2(x))),
        hex_u8_of(encode_utf8(hex2(x))) == Some(x),
        encode_utf8(hex2(x))[0] == hex2(x)[0] as u8,
        encode_utf8(hex2(x))[1] == hex2(x)[1] as u8,
{
    crate::text::lemma_hex2_value(x);
    crate::text::lemma_hex_byte(hex2(x)[0]);
    crate::text::lemma_hex_byte(hex2(x)[1]);
    assert(is_ascii_chars(hex2(x)));
    is_ascii_chars_encode_utf8(hex2(x));
    encode_utf8_valid_utf8(hex2(x));
    encode_utf8_decode_utf8(hex2(x));
}

/// A color written as `#rrggbb` is read back as the same color.
pub proof fn lemma_hex_roundtrip(r: u8, g: u8, b: u8)
    ensures
        hex_cuts_ok(hex_text(r, g, b)),
        hex_rgb_of(hex_text(r, g, b)) == Some((r, g, b)),
{
    let t = hex_text(r, g, b);
    crate::text::lemma_hex2_value(r);
    crate::text::lemma_hex2_value(g);
    crate::text::lemma_hex2_value(b);
    assert(t.len() == 7);
    assert forall|i: int| 1 <= i < 7 implies crate::text::is_lower_hex_char(#[trigger] t[i]) by {
        if i < 3 {
            assert(t[i] == hex2(r)[i - 1]);
        } else if i < 5 {
            assert(t[i] == hex2(g)[i - 3]);
        } else {
            assert(t[i] == hex2(b)[i - 5]);
        }
    }
    assert(is_ascii_chars(t)) by {
        assert forall|i: int| 0 <= i < t.len() implies '\0' <= #[trigger] t[i] <= '\u{7f}' by {
            if i > 0 {
                crate::text::lemma_hex_byte(t[i]);
            }
        }
    }
    is_ascii_chars_encode_utf8(t);
    let e = encode_utf8(t);
    assert(e[0] == 35u8);
    assert(e[1] != 35u8) by {
        crate::text::lemma_hex_byte(t[1]);
    }
    assert(strip_hashes(e.drop_first()) == e.drop_first());
    assert(strip_hashes(e) == e.drop_first());
    let h = e.drop_first();
    lemma_hex2_bytes(r);
    lemma_hex2_bytes(g);
    lemma_hex2_bytes(b);
    assert(h.subrange(0, 2) =~= encode_utf8(hex2(r)));
    assert(h.subrange(2, 4) =~= encode_utf8(hex2(g)));
    assert(h.subrange(4, 6) =~= encode_utf8(hex2(b)));
}

fn hex_u8(b: &[u8], from: usize, to: usize) -> (r: Option<u8>)
    requires
        from <= to <= b.len(),
        valid_utf8(b@.subrange(from as int, to as int)),
    ensures
        r == hex_u8_of(b@.subrange(from as int, to as int)),
{
    let part = copy_range(b, from, to);
    let text = match utf8_str(part.as_slice()) {
        Some(t) => t,
        None => {
            return None;
        },
    };
    let cs = chars_of(text);
    assert(cs@.subrange(0, cs.len() as int) == cs@);
    match parse_hex_range(cs.as_slice(), 0, cs.len()) {
        Some(v) => if v <= 255 { Some(v as u8) } else { None },
        None => None,
    }
}

/// Parses `#RRGGBB` or `#RGB` (leading `#` optional).
pub fn hex_to_rgb(hex: &str) -> (r: Option<(u8, u8, u8)>)
    requires
        hex_cuts_ok(hex@),
    ensures
        r == hex_rgb_of(hex@),
{
    let bytes = hex.as_bytes();
    let mut k: usize = 0;
    assert(bytes@.subrange(0, bytes@.len() as int) == bytes@);
    while k < bytes.len() && bytes[k] == 35u8
        invariant
            k <= bytes@.len(),
            bytes@ == encode_utf8(hex@),
            strip_hashes(bytes@) == strip_hashes(bytes@.subrange(k as int, bytes@.len() as int)),
        decreases bytes.len() - k,
    {
        assert(bytes@.subrange(k + 1, bytes@.len() as int) == bytes@.subrange(k as int, bytes@.len() as int).drop_first());
        k += 1;
    }
    let h = copy_range(bytes, k, bytes.len());
    assert(h@ == strip_hashes(bytes@));
    if h.len() == 6 {
        let r = hex_u8(h.as_slice(), 0, 2);
        let g = hex_u8(h.as_slice(), 2, 4);
        let b = hex_u8(h.as_slice(), 4, 6);
        match (r, g, b) {
            (Some(r), Some(g), Some(b)) => Some((r, g, b)),
            _ => None,
        }
    } else if h.len() == 3 {
        let r = hex_u8(h.as_slice(), 0, 1);
        let g = hex_u8(h.as_slice(), 1, 2);
        let b = hex_u8(h.as_slice(), 2, 3);
        match (r, g, b) {
            (Some(r), Some(g), Some(b)) => if r <= 15 && g <= 15 && b <= 15 {
                Some((r * 17, g * 17, b * 17))
            } else {
                None
            },
            _ => None,
        }
    } else {
        None
    }
}

// ============================================================================
// Icons, spacing, box styles
// ============================================================================

/// Icons used for visual feedback.
#[derive(Debug, Clone, Copy, PartialEq, Eq)]
pub struct ThemeIcons {
    pub success: &'static str,
    pub failure: &'static str,
    pub warning: &'static str,
    pub info: &'static str,
    pub arrow_right: &'static str,
    pub arrow_left: &'static str,
    pub bullet: &'static str,
    pub lock: &'static str,
    pub unlock: &'static str,
    pub http: &'static str,
    pub loading: &'static str,
    pub route: &'static str,
    pub database: &'static str,
    pub time: &'static str,
    pub size: &'static str,
}

pub open spec fn unicode_icons() -> ThemeIcons {
    ThemeIcons {
        success: "\u{2713}",
        failure: "\u{2717}",
        warning: "\u{26A0}",
        info: "\u{2139}",
        arrow_right: "\u{2192}",
        arrow_left: "\u{2190}",
        bullet: "\u{2022}",
        lock: "\u{1F512}",
        unlock: "\u{1F513}",
        http: "\u{1F310}",
        loading: "\u{25CF}",
        route: "\u{2192}",
        database: "\u{1F5C4}",
        time: "\u{23F1}",
        size: "\u{1F4BE}",
    }
}

pub open spec fn ascii_icons() -> ThemeIcons {
    ThemeIcons {
        success: "[OK]",
        failure: "[X]",
        warning: "[!]",
        info: "[i]",
        arrow_right: "->",
        arrow_left: "<-",
        bullet: "*",
        lock: "[#]",
        unlock: "[ ]",
        http: "[H]",
        loading: "...",
        route: "->",
        database: "[D]",
        time: "[T]",
        size: "[S]",
    }
}

pub open spec fn compact_icons() -> ThemeIcons {
    ThemeIcons {
        success: "\u{2713}",
        failure: "\u{2717}",
        warning: "!",
        info: "i",
        arrow_right: ">",
        arrow_left: "<",
        bullet: "\u{2022}",
        lock: "#",
        unlock: "o",
        http: "@",
        loading: ".",
        route: "/",
        database: "D",
        time: "T",
        size: "S",
    }
}

impl ThemeIcons {
    /// Unicode icons.
    pub fn unicode() -> (i: Self)
        ensures
            i == unicode_icons(),
    {
        ThemeIcons {
            success: "\u{2713}",
            failure: "\u{2717}",
            warning: "\u{26A0}",
            info: "\u{2139}",
            arrow_right: "\u{2192}",
            arrow_left: "\u{2190}",
            bullet: "\u{2022}",
            lock: "\u{1F512}",
            unlock: "\u{1F513}",
            http: "\u{1F310}",
            loading: "\u{25CF}",
            route: "\u{2192}",
            database: "\u{1F5C4}",
            time: "\u{23F1}",
            size: "\u{1F4BE}",
        }
    }

    /// ASCII-only icons.
    pub fn ascii() -> (i: Self)
        ensures
            i == ascii_icons(),
    {
        ThemeIcons {
            success: "[OK]",
            failure: "[X]",
            warning: "[!]",
            info: "[i]",
            arrow_right: "->",
            arrow_left: "<-",
            bullet: "*",
            lock: "[#]",
            unlock: "[ ]",
            http: "[H]",
            loading: "...",
            route: "->",
            database: "[D]",
            time: "[T]",
            size: "[S]",
        }
    }

    /// Compact icons, single-width where possible.
    pub fn compact() -> (i: Self)
        ensures
            i == compact_icons(),
    {
        ThemeIcons {
            success: "\u{2713}",
            failure: "\u{2717}",
            warning: "!",
            info: "i",
            arrow_right: ">",
            arrow_left: "<",
            bullet: "\u{2022}",
            lock: "#",
            unlock: "o",
            http: "@",
            loading: ".",
            route: "/",
            database: "D",
            time: "T",
            size: "S",
        }
    }

    /// The icons for a terminal: ASCII when it is dumb or when output goes to
    /// an automated environment, Unicode otherwise.
    pub fn for_environment(plain_terminal: bool) -> (i: Self)
        ensures
            i == (if plain_terminal { ascii_icons() } else { unicode_icons() }),
    {
        if plain_terminal { Self::ascii() } else { Self::unicode() }
    }
}

impl Default for ThemeIcons {
    fn default() -> (i: Self)
        ensures
            i == unicode_icons(),
    {
        Self::unicode()
    }
}

/// Spacing values, in characters (or blank lines for gaps).
#[derive(Debug, Clone, Copy, PartialEq, Eq, Structural)]
pub struct ThemeSpacing {
    pub indent: usize,
    pub panel_padding: usize,
    pub table_cell_padding: usize,
    pub section_gap: usize,
    pub item_gap: usize,
    pub method_width: usize,
    pub status_width: usize,
}

impl ThemeSpacing {
    /// Default spacing.
    pub fn default_spacing() -> (s: Self)
        ensures
            s == (ThemeSpacing { indent: 2, panel_padding: 1, table_cell_padding: 1, section_gap: 1, item_gap: 0, method_width: 7, status_width: 3 }),
    {
        ThemeSpacing { indent: 2, panel_padding: 1, table_cell_padding: 1, section_gap: 1, item_gap: 0, method_width: 7, status_width: 3 }
    }

    /// Compact spacing.
    pub fn compact() -> (s: Self)
        ensures
            s == (ThemeSpacing { indent: 1, panel_padding: 0, table_cell_padding: 1, section_gap: 0, item_gap: 0, method_width: 6, status_width: 3 }),
    {
        ThemeSpacing { indent: 1, panel_padding: 0, table_cell_padding: 1, section_gap: 0, item_gap: 0, method_width: 6, status_width: 3 }
    }

    /// Spacious layout.
    pub fn spacious() -> (s: Self)
        ensures
            s == (ThemeSpacing { indent: 4, panel_padding: 2, table_cell_padding: 2, section_gap: 2, item_gap: 1, method_width: 8, status_width: 4 }),
    {
        ThemeSpacing { indent: 4, panel_padding: 2, table_cell_padding: 2, section_gap: 2, item_gap: 1, method_width: 8, status_width: 4 }
    }
}

impl Default for ThemeSpacing {
    fn default() -> (s: Self)
        ensures
            s == (ThemeSpacing { indent: 2, panel_padding: 1, table_cell_padding: 1, section_gap: 1, item_gap: 0, method_width: 7, status_width: 3 }),
    {
        Self::default_spacing()
    }
}

/// Box drawing characters.
#[derive(Debug, Clone, Copy, PartialEq, Eq, Structural)]
pub struct BoxStyle {
    pub top_left: char,
    pub top_right: char,
    pub bottom_left: char,
    pub bottom_right: char,
    pub horizontal: char,
    pub vertical: char,
    pub left_tee: char,
    pub right_tee: char,
    pub top_tee: char,
    pub bottom_tee: char,
    pub cross: char,
}

pub open spec fn box_of(c: Seq<char>) -> BoxStyle {
    BoxStyle {
        top_left: c[0],
        top_right: c[1],
        bottom_left: c[2],
        bottom_right: c[3],
        horizontal: c[4],
        vertical: c[5],
        left_tee: c[6],
        right_tee: c[7],
        top_tee: c[8],
        bottom_tee: c[9],
        cross: c[10],
    }
}

pub open spec fn rounded_box() -> BoxStyle {
    box_of(seq!['\u{256D}', '\u{256E}', '\u{2570}', '\u{256F}', '\u{2500}', '\u{2502}', '\u{251C}', '\u{2524}', '\u{252C}', '\u{2534}', '\u{253C}'])
}

pub open spec fn square_box() -> BoxStyle {
    box_of(seq!['\u{250C}', '\u{2510}', '\u{2514}', '\u{2518}', '\u{2500}', '\u{2502}', '\u{251C}', '\u{2524}', '\u{252C}', '\u{2534}', '\u{253C}'])
}

pub open spec fn heavy_box() -> BoxStyle {
    box_of(seq!['\u{250F}', '\u{2513}', '\u{2517}', '\u{251B}', '\u{2501}', '\u{2503}', '\u{2523}', '\u{252B}', '\u{2533}', '\u{253B}', '\u{254B}'])
}

pub open spec fn double_box() -> BoxStyle {
    box_of(seq!['\u{2554}', '\u{2557}', '\u{255A}', '\u{255D}', '\u{2550}', '\u{2551}', '\u{2560}', '\u{2563}', '\u{2566}', '\u{2569}', '\u{256C}'])
}

pub open spec fn ascii_box() -> BoxStyle {
    box_of(seq!['+', '+', '+', '+', '-', '|', '+', '+', '+', '+', '+'])
}

pub open spec fn blank_box() -> BoxStyle {
    box_of(seq![' ', ' ', ' ', ' ', ' ', ' ', ' ', ' ', ' ', ' ', ' '])
}

/// `n` copies of `c`.
pub open spec fn repeat_spec(c: char, n: nat) -> Seq<char> {
    Seq::new(n, |i: int| c)
}

/// A border line: the corners around `width - 2` (at least zero) fill characters.
pub open spec fn border_line(left: char, fill: char, right: char, width: usize) -> Seq<char> {
    seq![left] + repeat_spec(fill, if width >= 2 { (width - 2) as nat } else { 0 }) + seq![right]
}

impl BoxStyle {
    /// Rounded Unicode corners.
    pub fn rounded() -> (s: Self)
        ensures
            s == rounded_box(),
    {
        BoxStyle { top_left: '\u{256D}', top_right: '\u{256E}', bottom_left: '\u{2570}', bottom_right: '\u{256F}', horizontal: '\u{2500}', vertical: '\u{2502}', left_tee: '\u{251C}', right_tee: '\u{2524}', top_tee: '\u{252C}', bottom_tee: '\u{2534}', cross: '\u{253C}' }
    }

    /// Square Unicode corners.
    pub fn square() -> (s: Self)
        ensures
            s == square_box(),
    {
        BoxStyle { top_left: '\u{250C}', top_right: '\u{2510}', bottom_left: '\u{2514}', bottom_right: '\u{2518}', horizontal: '\u{2500}', vertical: '\u{2502}', left_tee: '\u{251C}', right_tee: '\u{2524}', top_tee: '\u{252C}', bottom_tee: '\u{2534}', cross: '\u{253C}' }
    }

    /// Heavy lines.
    pub fn heavy() -> (s: Self)
        ensures
            s == heavy_box(),
    {
        BoxStyle { top_left: '\u{250F}', top_right: '\u{2513}', bottom_left: '\u{2517}', bottom_right: '\u{251B}', horizontal: '\u{2501}', vertical: '\u{2503}', left_tee: '\u{2523}', right_tee: '\u{252B}', top_tee: '\u{2533}', bottom_tee: '\u{253B}', cross: '\u{254B}' }
    }

    /// Double lines.
    pub fn double() -> (s: Self)
        ensures
            s == double_box(),
    {
        BoxStyle { top_left: '\u{2554}', top_right: '\u{2557}', bottom_left: '\u{255A}', bottom_right: '\u{255D}', horizontal: '\u{2550}', vertical: '\u{2551}', left_tee: '\u{2560}', right_tee: '\u{2563}', top_tee: '\u{2566}', bottom_tee: '\u{2569}', cross: '\u{256C}' }
    }

    /// ASCII `+`, `-` and `|`.
    pub fn ascii() -> (s: Self)
        ensures
            s == ascii_box(),
    {
        BoxStyle { top_left: '+', top_right: '+', bottom_left: '+', bottom_right: '+', horizontal: '-', vertical: '|', left_tee: '+', right_tee: '+', top_tee: '+', bottom_tee: '+', cross: '+' }
    }

    /// Invisible borders (spaces).
    pub fn none() -> (s: Self)
        ensures
            s == blank_box(),
    {
        BoxStyle { top_left: ' ', top_right: ' ', bottom_left: ' ', bottom_right: ' ', horizontal: ' ', vertical: ' ', left_tee: ' ', right_tee: ' ', top_tee: ' ', bottom_tee: ' ', cross: ' ' }
    }

    /// A horizontal line of `width` characters.
    pub fn horizontal_line(&self, width: usize) -> (s: String)
        ensures
            s@ == repeat_spec(self.horizontal, width as nat),
    {
        repeat_char(self.horizontal, width)
    }

    fn border(left: char, fill: char, right: char, width: usize) -> (s: String)
        ensures
            s@ == border_line(left, fill, right, width),
    {
        let mut s = String::new();
        push_char(&mut s, left);
        let inner = repeat_char(fill, if width >= 2 { width - 2 } else { 0 });
        push_str(&mut s, inner.as_str());
        push_char(&mut s, right);
        assert(s@ =~= border_line(left, fill, right, width));
        s
    }

    /// The top border of a box `width` characters wide.
    pub fn top_border(&self, width: usize) -> (s: String)
        ensures
            s@ == border_line(self.top_left, self.horizontal, self.top_right, width),
    {
        Self::border(self.top_left, self.horizontal, self.top_right, width)
    }

    /// The bottom border of a box `width` characters wide.
    pub fn bottom_border(&self, width: usize) -> (s: String)
        ensures
            s@ == border_line(self.bottom_left, self.horizontal, self.bottom_right, width),
    {
        Self::border(self.bottom_left, self.horizontal, self.bottom_right, width)
    }
}

impl Default for BoxStyle {
    fn default() -> (s: Self)
        ensures
            s == rounded_box(),
    {
        Self::rounded()
    }
}

/// Named box styles.
#[derive(Debug, Clone, Copy, PartialEq, Eq, Structural)]
pub enum BoxStylePreset {
    Rounded,
    Square,
    Heavy,
    Double,
    Ascii,
    NoBorder,
}

pub open spec fn preset_box(p: BoxStylePreset) -> BoxStyle {
    match p {
        BoxStylePreset::Rounded => rounded_box(),
        BoxStylePreset::Square => square_box(),
        BoxStylePreset::Heavy => heavy_box(),
        BoxStylePreset::Double => double_box(),
        BoxStylePreset::Ascii => ascii_box(),
        BoxStylePreset::NoBorder => blank_box(),
    }
}

/// The box style a (lower-cased) name selects.
pub open spec fn box_preset_named(l: Seq<char>) -> Option<BoxStylePreset> {
    if l == "rounded"@ { Some(BoxStylePreset::Rounded) }
    else if l == "square"@ { Some(BoxStylePreset::Square) }
    else if l == "heavy"@ || l == "bold"@ { Some(BoxStylePreset::Heavy) }
    else if l == "double"@ { Some(BoxStylePreset::Double) }
    else if l == "ascii"@ || l == "plain"@ { Some(BoxStylePreset::Ascii) }
    else if l == "none"@ || l == "invisible"@ { Some(BoxStylePreset::NoBorder) }
    else { None }
}

impl Default for BoxStylePreset {
    fn default() -> (p: Self)
        ensures
            p == BoxStylePreset::Rounded,
    {
        BoxStylePreset::Rounded
    }
}

impl BoxStylePreset {
    /// The box style of this preset.
    pub fn style(&self) -> (s: BoxStyle)
        ensures
            s == preset_box(*self),
    {
        match self {
            BoxStylePreset::Rounded => BoxStyle::rounded(),
            BoxStylePreset::Square => BoxStyle::square(),
            BoxStylePreset::Heavy => BoxStyle::heavy(),
            BoxStylePreset::Double => BoxStyle::double(),
            BoxStylePreset::Ascii => BoxStyle::ascii(),
            BoxStylePreset::NoBorder => BoxStyle::none(),
        }
    }

    /// The preset named `s` (any case).
    pub fn parse(s: &str) -> (r: Result<Self, BoxStyleParseError>)
        ensures
            match box_preset_named(unicode_lowercase(s@)) {
                Some(p) => r == Ok::<Self, BoxStyleParseError>(p),
                None => (r matches Err(e) && e@ == s@),
            },
    {
        let l = to_lowercase(s);
        let l = l.as_str();
        if str_eq(l, "rounded") { Ok(BoxStylePreset::Rounded) }
        else if str_eq(l, "square") { Ok(BoxStylePreset::Square) }
        else if str_eq(l, "heavy") || str_eq(l, "bold") { Ok(BoxStylePreset::Heavy) }
        else if str_eq(l, "double") { Ok(BoxStylePreset::Double) }
        else if str_eq(l, "ascii") || str_eq(l, "plain") { Ok(BoxStylePreset::Ascii) }
        else if str_eq(l, "none") || str_eq(l, "invisible") { Ok(BoxStylePreset::NoBorder) }
        else { Err(BoxStyleParseError(String::from_str(s))) }
    }
}

impl core::str::FromStr for BoxStylePreset {
    type Err = BoxStyleParseError;

    fn from_str(s: &str) -> Result<Self, Self::Err> {
        Self::parse(s)
    }
}

/// An unknown box style name.
#[derive(Debug, Clone)]
pub struct BoxStyleParseError(String);

impl View for BoxStyleParseError {
    type V = Seq<char>;

    closed spec fn view(&self) -> Seq<char> {
        self.0@
    }
}

impl BoxStyleParseError {
    /// The message: the unknown name and the available ones.
    pub fn to_string(&self) -> (s: String)
        ensures
            s@ == "unknown box style '"@ + self@ + "', available: rounded, square, heavy, double, ascii, none"@,
    {
        let mut s = String::new();
        push_str(&mut s, "unknown box style '");
        push_str(&mut s, self.0.as_str());
        push_str(&mut s, "', available: rounded, square, heavy, double, ascii, none");
        s
    }
}

// ============================================================================
// Color themes
// ============================================================================

/// A color palette for all output elements.
#[derive(Debug, Clone, Copy, PartialEq, Eq, Structural)]
pub struct FastApiTheme {
    pub primary: Color,
    pub secondary: Color,
    pub accent: Color,
    pub success: Color,
    pub warning: Color,
    pub error: Color,
    pub info: Color,
    pub http_get: Color,
    pub http_post: Color,
    pub http_put: Color,
    pub http_delete: Color,
    pub http_patch: Color,
    pub http_options: Color,
    pub http_head: Color,
    pub status_1xx: Color,
    pub status_2xx: Color,
    pub status_3xx: Color,
    pub status_4xx: Color,
    pub status_5xx: Color,
    pub border: Color,
    pub header: Color,
    pub muted: Color,
    pub highlight_bg: Color,
}

/// The default FastAPI-inspired palette (Swagger UI method colors).
pub open spec fn fastapi_palette() -> FastApiTheme {
    FastApiTheme {
        primary: hex_color(0x009688),
        secondary: hex_color(0x4CAF50),
        accent: hex_color(0xFF9800),
        success: hex_color(0x4CAF50),
        warning: hex_color(0xFF9800),
        error: hex_color(0xF44336),
        info: hex_color(0x2196F3),
        http_get: hex_color(0x61AFFE),
        http_post: hex_color(0x49CC90),
        http_put: hex_color(0xFCA130),
        http_delete: hex_color(0xF93E3E),
        http_patch: hex_color(0x50E3C2),
        http_options: hex_color(0x808080),
        http_head: hex_color(0x9370DB),
        status_1xx: hex_color(0x808080),
        status_2xx: hex_color(0x4CAF50),
        status_3xx: hex_color(0x00BCD4),
        status_4xx: hex_color(0xFFC107),
        status_5xx: hex_color(0xF44336),
        border: hex_color(0x9E9E9E),
        header: hex_color(0x009688),
        muted: hex_color(0x757575),
        highlight_bg: hex_color(0x263238),
    }
}

/// A high-contrast neon palette.
pub open spec fn neon_palette() -> FastApiTheme {
    FastApiTheme {
        primary: hex_color(0x00FFFF),
        secondary: hex_color(0xFF00FF),
        accent: hex_color(0xFFFF00),
        success: hex_color(0x00FF80),
        warning: hex_color(0xFFFF00),
        error: hex_color(0xFF0040),
        info: hex_color(0x0080FF),
        http_get: hex_color(0x00FFFF),
        http_post: hex_color(0x00FF80),
        http_put: hex_color(0xFFA500),
        http_delete: hex_color(0xFF0040),
        http_patch: hex_color(0xFF00FF),
        http_options: hex_color(0x808080),
        http_head: hex_color(0x9400D3),
        status_1xx: hex_color(0x808080),
        status_2xx: hex_color(0x00FF80),
        status_3xx: hex_color(0x00FFFF),
        status_4xx: hex_color(0xFFFF00),
        status_5xx: hex_color(0xFF0040),
        border: hex_color(0x00FFFF),
        header: hex_color(0xFF00FF),
        muted: hex_color(0x646464),
        highlight_bg: hex_color(0x141428),
    }
}

/// A grayscale palette with a few accents.
pub open spec fn minimal_palette() -> FastApiTheme {
    FastApiTheme {
        primary: hex_color(0xC8C8C8),
        secondary: hex_color(0xB4B4B4),
        accent: hex_color(0xFF9800),
        success: hex_color(0x64C864),
        warning: hex_color(0xFFB400),
        error: hex_color(0xFF6464),
        info: hex_color(0x6496FF),
        http_get: hex_color(0x9696C8),
        http_post: hex_color(0x96C896),
        http_put: hex_color(0xC8B464),
        http_delete: hex_color(0xC86464),
        http_patch: hex_color(0x64C8C8),
        http_options: hex_color(0x808080),
        http_head: hex_color(0xB496C8),
        status_1xx: hex_color(0x808080),
        status_2xx: hex_color(0x64C864),
        status_3xx: hex_color(0x64C8C8),
        status_4xx: hex_color(0xC8B464),
        status_5xx: hex_color(0xC86464),
        border: hex_color(0x646464),
        header: hex_color(0xDCDCDC),
        muted: hex_color(0x505050),
        highlight_bg: hex_color(0x1E1E1E),
    }
}

/// A Monokai-inspired dark palette.
pub open spec fn monokai_palette() -> FastApiTheme {
    FastApiTheme {
        primary: hex_color(0xA6E22E),
        secondary: hex_color(0x66D9EF),
        accent: hex_color(0xFD971F),
        success: hex_color(0xA6E22E),
        warning: hex_color(0xFD971F),
        error: hex_color(0xF92672),
        info: hex_color(0x66D9EF),
        http_get: hex_color(0x66D9EF),
        http_post: hex_color(0xA6E22E),
        http_put: hex_color(0xFD971F),
        http_delete: hex_color(0xF92672),
        http_patch: hex_color(0xAE81FF),
        http_options: hex_color(0x75715E),
        http_head: hex_color(0xAE81FF),
        status_1xx: hex_color(0x75715E),
        status_2xx: hex_color(0xA6E22E),
        status_3xx: hex_color(0x66D9EF),
        status_4xx: hex_color(0xFD971F),
        status_5xx: hex_color(0xF92672),
        border: hex_color(0x75715E),
        header: hex_color(0xF8F8F2),
        muted: hex_color(0x75715E),
        highlight_bg: hex_color(0x272822),
    }
}

/// A palette for light terminal backgrounds.
pub open spec fn light_palette() -> FastApiTheme {
    FastApiTheme {
        primary: hex_color(0x00796B),
        secondary: hex_color(0x388E3C),
        accent: hex_color(0xE65100),
        success: hex_color(0x2E7D32),
        warning: hex_color(0xE65100),
        error: hex_color(0xC62828),
        info: hex_color(0x1565C0),
        http_get: hex_color(0x1976D2),
        http_post: hex_color(0x2E7D32),
        http_put: hex_color(0xE65100),
        http_delete: hex_color(0xC62828),
        http_patch: hex_color(0x00838F),
        http_options: hex_color(0x616161),
        http_head: hex_color(0x6A1B9A),
        status_1xx: hex_color(0x616161),
        status_2xx: hex_color(0x2E7D32),
        status_3xx: hex_color(0x00838F),
        status_4xx: hex_color(0xE65100),
        status_5xx: hex_color(0xC62828),
        border: hex_color(0x9E9E9E),
        header: hex_color(0x212121),
        muted: hex_color(0x757575),
        highlight_bg: hex_color(0xE3F2FD),
    }
}

/// A high-contrast palette with pure terminal colors.
pub open spec fn accessible_palette() -> FastApiTheme {
    FastApiTheme {
        primary: hex_color(0x00FFFF),
        secondary: hex_color(0x00FF00),
        accent: hex_color(0xFFFF00),
        success: hex_color(0x00FF00),
        warning: hex_color(0xFFFF00),
        error: hex_color(0xFF0000),
        info: hex_color(0x00FFFF),
        http_get: hex_color(0x00FFFF),
        http_post: hex_color(0x00FF00),
        http_put: hex_color(0xFFFF00),
        http_delete: hex_color(0xFF0000),
        http_patch: hex_color(0xFF00FF),
        http_options: hex_color(0xFFFFFF),
        http_head: hex_color(0xFF00FF),
        status_1xx: hex_color(0xFFFFFF),
        status_2xx: hex_color(0x00FF00),
        status_3xx: hex_color(0x00FFFF),
        status_4xx: hex_color(0xFFFF00),
        status_5xx: hex_color(0xFF0000),
        border: hex_color(0xFFFFFF),
        header: hex_color(0xFFFFFF),
        muted: hex_color(0xC0C0C0),
        highlight_bg: hex_color(0x000080),
    }
}

/// The palette of a preset.
pub open spec fn preset_theme(p: ThemePreset) -> FastApiTheme {
    match p {
        ThemePreset::Default | ThemePreset::FastApi => fastapi_palette(),
        ThemePreset::Neon => neon_palette(),
        ThemePreset::Minimal => minimal_palette(),
        ThemePreset::Monokai => monokai_palette(),
        ThemePreset::Light => light_palette(),
        ThemePreset::Accessible => accessible_palette(),
    }
}

/// The color of an HTTP method, whose name is compared upper-cased.
pub open spec fn method_color(t: FastApiTheme, upper: Seq<char>) -> Color {
    if upper == "GET"@ { t.http_get }
    else if upper == "POST"@ { t.http_post }
    else if upper == "PUT"@ { t.http_put }
    else if upper == "DELETE"@ { t.http_delete }
    else if upper == "PATCH"@ { t.http_patch }
    else if upper == "OPTIONS"@ { t.http_options }
    else if upper == "HEAD"@ { t.http_head }
    else { t.muted }
}

/// The color of an HTTP status code by its class.
pub open spec fn status_color(t: FastApiTheme, code: u16) -> Color {
    if 100 <= code && code <= 199 { t.status_1xx }
    else if 200 <= code && code <= 299 { t.status_2xx }
    else if 300 <= code && code <= 399 { t.status_3xx }
    else if 400 <= code && code <= 499 { t.status_4xx }
    else if 500 <= code && code <= 599 { t.status_5xx }
    else { t.muted }
}

pub open spec fn color_hex(c: Color) -> Seq<char> {
    hex_text(c.r, c.g, c.b)
}

impl FastApiTheme {
    /// The palette of a preset.
    pub fn from_preset(preset: ThemePreset) -> (t: Self)
        ensures
            t == preset_theme(preset),
    {
        match preset {
            ThemePreset::FastApi | ThemePreset::Default => Self::fastapi(),
            ThemePreset::Neon => Self::neon(),
            ThemePreset::Minimal => Self::minimal(),
            ThemePreset::Monokai => Self::monokai(),
            ThemePreset::Light => Self::light(),
            ThemePreset::Accessible => Self::accessible(),
        }
    }

    /// The default FastAPI-inspired palette (Swagger UI method colors).
    pub fn fastapi() -> (t: Self)
        ensures
            t == fastapi_palette(),
    {
        FastApiTheme {
            primary: Color::from_hex(0x009688),
            secondary: Color::from_hex(0x4CAF50),
            accent: Color::from_hex(0xFF9800),
            success: Color::from_hex(0x4CAF50),
            warning: Color::from_hex(0xFF9800),
            error: Color::from_hex(0xF44336),
            info: Color::from_hex(0x2196F3),
            http_get: Color::from_hex(0x61AFFE),
            http_post: Color::from_hex(0x49CC90),
            http_put: Color::from_hex(0xFCA130),
            http_delete: Color::from_hex(0xF93E3E),
            http_patch: Color::from_hex(0x50E3C2),
            http_options: Color::from_hex(0x808080),
            http_head: Color::from_hex(0x9370DB),
            status_1xx: Color::from_hex(0x808080),
            status_2xx: Color::from_hex(0x4CAF50),
            status_3xx: Color::from_hex(0x00BCD4),
            status_4xx: Color::from_hex(0xFFC107),
            status_5xx: Color::from_hex(0xF44336),
            border: Color::from_hex(0x9E9E9E),
            header: Color::from_hex(0x009688),
            muted: Color::from_hex(0x757575),
            highlight_bg: Color::from_hex(0x263238),
        }
    }

    /// A high-contrast neon palette.
    pub fn neon() -> (t: Self)
        ensures
            t == neon_palette(),
    {
        FastApiTheme {
            primary: Color::from_hex(0x00FFFF),
            secondary: Color::from_hex(0xFF00FF),
            accent: Color::from_hex(0xFFFF00),
            success: Color::from_hex(0x00FF80),
            warning: Color::from_hex(0xFFFF00),
            error: Color::from_hex(0xFF0040),
            info: Color::from_hex(0x0080FF),
            http_get: Color::from_hex(0x00FFFF),
            http_post: Color::from_hex(0x00FF80),
            http_put: Color::from_hex(0xFFA500),
            http_delete: Color::from_hex(0xFF0040),
            http_patch: Color::from_hex(0xFF00FF),
            http_options: Color::from_hex(0x808080),
            http_head: Color::from_hex(0x9400D3),
            status_1xx: Color::from_hex(0x808080),
            status_2xx: Color::from_hex(0x00FF80),
            status_3xx: Color::from_hex(0x00FFFF),
            status_4xx: Color::from_hex(0xFFFF00),
            status_5xx: Color::from_hex(0xFF0040),
            border: Color::from_hex(0x00FFFF),
            header: Color::from_hex(0xFF00FF),
            muted: Color::from_hex(0x646464),
            highlight_bg: Color::from_hex(0x141428),
        }
    }

    /// A grayscale palette with a few accents.
    pub fn minimal() -> (t: Self)
        ensures
            t == minimal_palette(),
    {
        FastApiTheme {
            primary: Color::from_hex(0xC8C8C8),
            secondary: Color::from_hex(0xB4B4B4),
            accent: Color::from_hex(0xFF9800),
            success: Color::from_hex(0x64C864),
            warning: Color::from_hex(0xFFB400),
            error: Color::from_hex(0xFF6464),
            info: Color::from_hex(0x6496FF),
            http_get: Color::from_hex(0x9696C8),
            http_post: Color::from_hex(0x96C896),
            http_put: Color::from_hex(0xC8B464),
            http_delete: Color::from_hex(0xC86464),
            http_patch: Color::from_hex(0x64C8C8),
            http_options: Color::from_hex(0x808080),
            http_head: Color::from_hex(0xB496C8),
            status_1xx: Color::from_hex(0x808080),
            status_2xx: Color::from_hex(0x64C864),
            status_3xx: Color::from_hex(0x64C8C8),
            status_4xx: Color::from_hex(0xC8B464),
            status_5xx: Color::from_hex(0xC86464),
            border: Color::from_hex(0x646464),
            header: Color::from_hex(0xDCDCDC),
            muted: Color::from_hex(0x505050),
            highlight_bg: Color::from_hex(0x1E1E1E),
        }
    }

    /// A Monokai-inspired dark palette.
    pub fn monokai() -> (t: Self)
        ensures
            t == monokai_palette(),
    {
        FastApiTheme {
            primary: Color::from_hex(0xA6E22E),
            secondary: Color::from_hex(0x66D9EF),
            accent: Color::from_hex(0xFD971F),
            success: Color::from_hex(0xA6E22E),
            warning: Color::from_hex(0xFD971F),
            error: Color::from_hex(0xF92672),
            info: Color::from_hex(0x66D9EF),
            http_get: Color::from_hex(0x66D9EF),
            http_post: Color::from_hex(0xA6E22E),
            http_put: Color::from_hex(0xFD971F),
            http_delete: Color::from_hex(0xF92672),
            http_patch: Color::from_hex(0xAE81FF),
            http_options: Color::from_hex(0x75715E),
            http_head: Color::from_hex(0xAE81FF),
            status_1xx: Color::from_hex(0x75715E),
            status_2xx: Color::from_hex(0xA6E22E),
            status_3xx: Color::from_hex(0x66D9EF),
            status_4xx: Color::from_hex(0xFD971F),
            status_5xx: Color::from_hex(0xF92672),
            border: Color::from_hex(0x75715E),
            header: Color::from_hex(0xF8F8F2),
            muted: Color::from_hex(0x75715E),
            highlight_bg: Color::from_hex(0x272822),
        }
    }

    /// A palette for light terminal backgrounds.
    pub fn light() -> (t: Self)
        ensures
            t == light_palette(),
    {
        FastApiTheme {
            primary: Color::from_hex(0x00796B),
            secondary: Color::from_hex(0x388E3C),
            accent: Color::from_hex(0xE65100),
            success: Color::from_hex(0x2E7D32),
            warning: Color::from_hex(0xE65100),
            error: Color::from_hex(0xC62828),
            info: Color::from_hex(0x1565C0),
            http_get: Color::from_hex(0x1976D2),
            http_post: Color::from_hex(0x2E7D32),
            http_put: Color::from_hex(0xE65100),
            http_delete: Color::from_hex(0xC62828),
            http_patch: Color::from_hex(0x00838F),
            http_options: Color::from_hex(0x616161),
            http_head: Color::from_hex(0x6A1B9A),
            status_1xx: Color::from_hex(0x616161),
            status_2xx: Color::from_hex(0x2E7D32),
            status_3xx: Color::from_hex(0x00838F),
            status_4xx: Color::from_hex(0xE65100),
            status_5xx: Color::from_hex(0xC62828),
            border: Color::from_hex(0x9E9E9E),
            header: Color::from_hex(0x212121),
            muted: Color::from_hex(0x757575),
            highlight_bg: Color::from_hex(0xE3F2FD),
        }
    }

    /// A high-contrast palette with pure terminal colors.
    pub fn accessible() -> (t: Self)
        ensures
            t == accessible_palette(),
    {
        FastApiTheme {
            primary: Color::from_hex(0x00FFFF),
            secondary: Color::from_hex(0x00FF00),
            accent: Color::from_hex(0xFFFF00),
            success: Color::from_hex(0x00FF00),
            warning: Color::from_hex(0xFFFF00),
            error: Color::from_hex(0xFF0000),
            info: Color::from_hex(0x00FFFF),
            http_get: Color::from_hex(0x00FFFF),
            http_post: Color::from_hex(0x00FF00),
            http_put: Color::from_hex(0xFFFF00),
            http_delete: Color::from_hex(0xFF0000),
            http_patch: Color::from_hex(0xFF00FF),
            http_options: Color::from_hex(0xFFFFFF),
            http_head: Color::from_hex(0xFF00FF),
            status_1xx: Color::from_hex(0xFFFFFF),
            status_2xx: Color::from_hex(0x00FF00),
            status_3xx: Color::from_hex(0x00FFFF),
            status_4xx: Color::from_hex(0xFFFF00),
            status_5xx: Color::from_hex(0xFF0000),
            border: Color::from_hex(0xFFFFFF),
            header: Color::from_hex(0xFFFFFF),
            muted: Color::from_hex(0xC0C0C0),
            highlight_bg: Color::from_hex(0x000080),
        }
    }

    /// The color of an HTTP method (any case).
    pub fn http_method_color(&self, method: &str) -> (c: Color)
        ensures
            c == method_color(*self, unicode_uppercase(method@)),
    {
        let u = to_uppercase(method);
        let u = u.as_str();
        if str_eq(u, "GET") { self.http_get }
        else if str_eq(u, "POST") { self.http_post }
        else if str_eq(u, "PUT") { self.http_put }
        else if str_eq(u, "DELETE") { self.http_delete }
        else if str_eq(u, "PATCH") { self.http_patch }
        else if str_eq(u, "OPTIONS") { self.http_options }
        else if str_eq(u, "HEAD") { self.http_head }
        else { self.muted }
    }

    /// The color of an HTTP status code.
    pub fn status_code_color(&self, code: u16) -> (c: Color)
        ensures
            c == status_color(*self, code),
    {
        if 100 <= code && code <= 199 { self.status_1xx }
        else if 200 <= code && code <= 299 { self.status_2xx }
        else if 300 <= code && code <= 399 { self.status_3xx }
        else if 400 <= code && code <= 499 { self.status_4xx }
        else if 500 <= code && code <= 599 { self.status_5xx }
        else { self.muted }
    }

    /// The primary color as `#rrggbb`.
    pub fn primary_hex(&self) -> (s: String)
        ensures
            s@ == color_hex(self.primary),
    {
        self.primary.to_hex()
    }

    /// The success color as `#rrggbb`.
    pub fn success_hex(&self) -> (s: String)
        ensures
            s@ == color_hex(self.success),
    {
        self.success.to_hex()
    }

    /// The error color as `#rrggbb`.
    pub fn error_hex(&self) -> (s: String)
        ensures
            s@ == color_hex(self.error),
    {
        self.error.to_hex()
    }

    /// The warning color as `#rrggbb`.
    pub fn warning_hex(&self) -> (s: String)
        ensures
            s@ == color_hex(self.warning),
    {
        self.warning.to_hex()
    }

    /// The info color as `#rrggbb`.
    pub fn info_hex(&self) -> (s: String)
        ensures
            s@ == color_hex(self.info),
    {
        self.info.to_hex()
    }

    /// The accent color as `#rrggbb`.
    pub fn accent_hex(&self) -> (s: String)
        ensures
            s@ == color_hex(self.accent),
    {
        self.accent.to_hex()
    }

    /// The color of an HTTP method as `#rrggbb`.
    pub fn http_method_hex(&self, method: &str) -> (s: String)
        ensures
            s@ == color_hex(method_color(*self, unicode_uppercase(method@))),
    {
        self.http_method_color(method).to_hex()
    }

    /// The color of a status code as `#rrggbb`.
    pub fn status_code_hex(&self, code: u16) -> (s: String)
        ensures
            s@ == color_hex(status_color(*self, code)),
    {
        self.status_code_color(code).to_hex()
    }
}

impl Default for FastApiTheme {
    fn default() -> (t: Self)
        ensures
            t == fastapi_palette(),
    {
        Self::fastapi()
    }
}

/// Named themes.
#[derive(Debug, Clone, Copy, PartialEq, Eq, Structural)]
pub enum ThemePreset {
    Default,
    FastApi,
    Neon,
    Minimal,
    Monokai,
    Light,
    Accessible,
}

impl Default for ThemePreset {
    fn default() -> (p: Self)
        ensures
            p == ThemePreset::Default,
    {
        ThemePreset::Default
    }
}

/// The display name of a preset.
pub open spec fn preset_name(p: ThemePreset) -> Seq<char> {
    match p {
        ThemePreset::Default => "default"@,
        ThemePreset::FastApi => "fastapi"@,
        ThemePreset::Neon => "neon"@,
        ThemePreset::Minimal => "minimal"@,
        ThemePreset::Monokai => "monokai"@,
        ThemePreset::Light => "light"@,
        ThemePreset::Accessible => "accessible"@,
    }
}

/// The preset a (lower-cased) name selects.
pub open spec fn theme_preset_named(l: Seq<char>) -> Option<ThemePreset> {
    if l == "default"@ || l == "fastapi"@ { Some(ThemePreset::FastApi) }
    else if l == "neon"@ || l == "cyberpunk"@ { Some(ThemePreset::Neon) }
    else if l == "minimal"@ || l == "gray"@ || l == "grey"@ { Some(ThemePreset::Minimal) }
    else if l == "monokai"@ || l == "dark"@ { Some(ThemePreset::Monokai) }
    else if l == "light"@ { Some(ThemePreset::Light) }
    else if l == "accessible"@ || l == "a11y"@ { Some(ThemePreset::Accessible) }
    else { None }
}

/// A preset's name selects it again, except `default`, which names the
/// FastAPI palette: provided lower-casing leaves the (lowercase ASCII) name
/// unchanged.
pub proof fn lemma_preset_name_roundtrip(p: ThemePreset)
    ensures
        unicode_lowercase(preset_name(p)) == preset_name(p) ==> theme_preset_named(unicode_lowercase(preset_name(p)))
            == Some(
            if p == ThemePreset::Default {
                ThemePreset::FastApi
            } else {
                p
            },
        ),
{
    let names: Seq<Seq<char>> = seq![
        "default"@, "fastapi"@, "neon"@, "cyberpunk"@, "minimal"@, "gray"@, "grey"@, "monokai"@, "dark"@,
        "light"@, "accessible"@, "a11y"@,
    ];
    reveal_strlit("default");
    reveal_strlit("fastapi");
    reveal_strlit("neon");
    reveal_strlit("cyberpunk");
    reveal_strlit("minimal");
    reveal_strlit("gray");
    reveal_strlit("grey");
    reveal_strlit("monokai");
    reveal_strlit("dark");
    reveal_strlit("light");
    reveal_strlit("accessible");
    reveal_strlit("a11y");
    assert forall|i: int, j: int| 0 <= i < j < 12 implies #[trigger] names[i] != #[trigger] names[j] by {
        if names[i].len() == names[j].len() {
            assert(names[i][0] != names[j][0] || names[i][1] != names[j][1] || names[i][2] != names[j][2]
                || names[i][3] != names[j][3]);
        }
    }
    assert(names[0] == "default"@ && names[1] == "fastapi"@ && names[2] == "neon"@ && names[3] == "cyberpunk"@);
    assert(names[4] == "minimal"@ && names[5] == "gray"@ && names[6] == "grey"@ && names[7] == "monokai"@);
    assert(names[8] == "dark"@ && names[9] == "light"@ && names[10] == "accessible"@ && names[11] == "a11y"@);
}

impl ThemePreset {
    /// The palette of this preset.
    pub fn theme(&self) -> (t: FastApiTheme)
        ensures
            t == preset_theme(*self),
    {
        FastApiTheme::from_preset(*self)
    }

    /// The names of the presets.
    pub fn available_presets() -> (v: Vec<&'static str>)
        ensures
            v@.len() == 7,
            v@[0]@ == "default"@,
            v@[1]@ == "fastapi"@,
            v@[2]@ == "neon"@,
            v@[3]@ == "minimal"@,
            v@[4]@ == "monokai"@,
            v@[5]@ == "light"@,
            v@[6]@ == "accessible"@,
    {
        let mut v: Vec<&'static str> = Vec::new();
        v.push("default");
        v.push("fastapi");
        v.push("neon");
        v.push("minimal");
        v.push("monokai");
        v.push("light");
        v.push("accessible");
        v
    }

    /// The display name of this preset.
    pub fn to_string(&self) -> (s: String)
        ensures
            s@ == preset_name(*self),
    {
        let name = match self {
            ThemePreset::Default => "default",
            ThemePreset::FastApi => "fastapi",
            ThemePreset::Neon => "neon",
            ThemePreset::Minimal => "minimal",
            ThemePreset::Monokai => "monokai",
            ThemePreset::Light => "light",
            ThemePreset::Accessible => "accessible",
        };
        String::from_str(name)
    }

    /// The preset named `s` (any case).
    pub fn parse(s: &str) -> (r: Result<Self, ThemePresetParseError>)
        ensures
            match theme_preset_named(unicode_lowercase(s@)) {
                Some(p) => r == Ok::<Self, ThemePresetParseError>(p),
                None => (r matches Err(e) && e@ == s@),
            },
    {
        let l = to_lowercase(s);
        let l = l.as_str();
        if str_eq(l, "default") || str_eq(l, "fastapi") { Ok(ThemePreset::FastApi) }
        else if str_eq(l, "neon") || str_eq(l, "cyberpunk") { Ok(ThemePreset::Neon) }
        else if str_eq(l, "minimal") || str_eq(l, "gray") || str_eq(l, "grey") { Ok(ThemePreset::Minimal) }
        else if str_eq(l, "monokai") || str_eq(l, "dark") { Ok(ThemePreset::Monokai) }
        else if str_eq(l, "light") { Ok(ThemePreset::Light) }
        else if str_eq(l, "accessible") || str_eq(l, "a11y") { Ok(ThemePreset::Accessible) }
        else { Err(ThemePresetParseError(String::from_str(s))) }
    }
}

impl core::str::FromStr for ThemePreset {
    type Err = ThemePresetParseError;

    fn from_str(s: &str) -> Result<Self, Self::Err> {
        Self::parse(s)
    }
}

/// An unknown theme preset name.
#[derive(Debug, Clone)]
pub struct ThemePresetParseError(String);

impl View for ThemePresetParseError {
    type V = Seq<char>;

    closed spec fn view(&self) -> Seq<char> {
        self.0@
    }
}

impl ThemePresetParseError {
    /// The name that was not recognized.
    pub fn invalid_name(&self) -> (s: &str)
        ensures
            s@ == self@,
    {
        self.0.as_str()
    }

    /// The message: the unknown name and the available ones.
    pub fn to_string(&self) -> (s: String)
        ensures
            s@ == "unknown theme preset '"@ + self@ + "', available: default, fastapi, neon, minimal, monokai, light, accessible"@,
    {
        let mut s = String::new();
        push_str(&mut s, "unknown theme preset '");
        push_str(&mut s, self.0.as_str());
        push_str(&mut s, "', available: default, fastapi, neon, minimal, monokai, light, accessible");
        s
    }
}

} // verus!
