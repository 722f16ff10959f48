//! RGBA colors and the `"#RRGGBB"` / `"#RRGGBBAA"` hex notation used in
//! scene files.
use vstd::prelude::*;
use vstd::string::*;

verus! {

/// RGBA color stored as 0–255 components.
#[derive(Clone, Copy, Debug, PartialEq, Eq, Structural)]
pub struct Color {
    pub r: u8,
    pub g: u8,
    pub b: u8,
    pub a: u8,
}

impl Color {
    /// A fully opaque RGB color.
    pub fn rgb(r: u8, g: u8, b: u8) -> (c: Color)
        ensures
            c == (Color { r, g, b, a: 255 }),
    {
        Color { r, g, b, a: 255 }
    }

    /// An RGBA color.
    pub fn rgba(r: u8, g: u8, b: u8, a: u8) -> (c: Color)
        ensures
            c == (Color { r, g, b, a }),
    {
        Color { r, g, b, a }
    }

    /// Opaque white.
    pub fn white() -> (c: Color)
        ensures
            c == (Color { r: 255, g: 255, b: 255, a: 255 }),
    {
        Color { r: 255, g: 255, b: 255, a: 255 }
    }

    /// Opaque black.
    pub fn black() -> (c: Color)
        ensures
            c == (Color { r: 0, g: 0, b: 0, a: 255 }),
    {
        Color { r: 0, g: 0, b: 0, a: 255 }
    }
}

// ── Radix-16 digits ──────────────────────────────────────────────────────────

/// Value of an ASCII hexadecimal digit byte (either letter case).
pub open spec fn hex_digit(b: u8) -> Option<int> {
    if 0x30 <= b <= 0x39 {
        Some(b - 0x30)
    } else if 0x61 <= b <= 0x66 {
        Some(b - 0x61 + 10)
    } else if 0x41 <= b <= 0x46 {
        Some(b - 0x41 + 10)
    } else {
        None
    }
}

/// Value of a two-character hex byte: exactly two hexadecimal digits, the
/// first the high one.  Anything else (a sign, a single digit, a non-ASCII
/// byte) is no hex byte.
pub open spec fn hex_byte(b: Seq<u8>) -> Option<u8> {
    if b.len() == 2 && hex_digit(b[0]) is Some && hex_digit(b[1]) is Some {
        Some((hex_digit(b[0]).unwrap() * 16 + hex_digit(b[1]).unwrap()) as u8)
    } else {
        None
    }
}

/// Value of one hex digit byte, or `None`.
fn hex_digit_exec(b: u8) -> (r: Option<u8>)
    ensures
        match hex_digit(b) {
            Some(v) => r == Some(v as u8),
            None => r is None,
        },
{
    if 0x30 <= b && b <= 0x39 {
        Some(b - 0x30)
    } else if 0x61 <= b && b <= 0x66 {
        Some(b - 0x61 + 10)
    } else if 0x41 <= b && b <= 0x46 {
        Some(b - 0x41 + 10)
    } else {
        None
    }
}

/// The hex byte held by `bytes[lo..lo + 2]`.
pub fn hex_byte_at(bytes: &[u8], lo: usize) -> (r: Option<u8>)
    requires
        lo + 2 <= bytes@.len(),
    ensures
        r == hex_byte(bytes@.subrange(lo as int, lo + 2)),
{
    let ghost b = bytes@.subrange(lo as int, lo + 2);
    assert(b[0] == bytes@[lo as int] && b[1] == bytes@[lo + 1]);
    match (hex_digit_exec(bytes[lo]), hex_digit_exec(bytes[lo + 1])) {
        (Some(hi), Some(lo_digit)) => Some(hi * 16 + lo_digit),
        _ => None,
    }
}

// ── Hex color notation ───────────────────────────────────────────────────────

/// Why a hex color string was refused.
#[derive(Clone, Copy, Debug, PartialEq, Eq, Structural)]
pub enum HexColorFault {
    /// Not `'#'` followed by six or eight more bytes.
    Shape,
    /// Right shape, but a two-character group is not a hex byte.
    Digits,
}

/// The two-character group starting at byte `i`.
pub open spec fn group(b: Seq<u8>, i: int) -> Option<u8> {
    hex_byte(b.subrange(i, i + 2))
}

/// Outcome of reading `b` (the UTF-8 bytes of a string) as `#RRGGBB` or
/// `#RRGGBBAA`.  Groups are read left to right and the first bad group
/// decides the outcome.
pub open spec fn hex_color_outcome(b: Seq<u8>) -> Result<Color, HexColorFault> {
    if b.len() == 0 || b[0] != 0x23 || !(b.len() == 7 || b.len() == 9) {
        Err(HexColorFault::Shape)
    } else if group(b, 1) is None || group(b, 3) is None || group(b, 5) is None {
        Err(HexColorFault::Digits)
    } else if b.len() == 7 {
        Ok(Color { r: group(b, 1).unwrap(), g: group(b, 3).unwrap(), b: group(b, 5).unwrap(), a: 255 })
    } else if group(b, 7) is None {
        Err(HexColorFault::Digits)
    } else {
        Ok(
            Color {
                r: group(b, 1).unwrap(),
                g: group(b, 3).unwrap(),
                b: group(b, 5).unwrap(),
                a: group(b, 7).unwrap(),
            },
        )
    }
}

/// Classify a hex color string; the shared core of [`parse_hex_color`] and
/// [`parse_hex_color_vfx`].
pub fn read_hex_color(s: &str) -> (r: Result<Color, HexColorFault>)
    ensures
        r == hex_color_outcome(s.spec_bytes()),
{
    let b = s.as_bytes();
    let n = b.len();
    if n == 0 || b[0] != 0x23 || !(n == 7 || n == 9) {
        return Err(HexColorFault::Shape);
    }
    let r = hex_byte_at(b, 1);
    let g = hex_byte_at(b, 3);
    let bl = hex_byte_at(b, 5);
    match (r, g, bl) {
        (Some(r), Some(g), Some(bl)) => {
            if n == 7 {
                Ok(Color::rgb(r, g, bl))
            } else {
                match hex_byte_at(b, 7) {
                    Some(a) => Ok(Color::rgba(r, g, bl, a)),
                    None => Err(HexColorFault::Digits),
                }
            }
        },
        _ => Err(HexColorFault::Digits),
    }
}


// ── Scene-file color fields ──────────────────────────────────────────────────

/// Message for a color field that is not `'#'` plus six or eight bytes.
pub open spec fn shape_message(s: Seq<char>) -> Seq<char> {
    "color must be '#RRGGBB' or '#RRGGBBAA' hex, got '"@ + s + "'"@
}

/// Message for a color field with a group that is not a hex byte.
pub open spec fn digits_message(s: Seq<char>) -> Seq<char> {
    "invalid hex color '"@ + s + "'"@
}

fn shape_message_exec(s: &str) -> (m: String)
    ensures
        m@ == shape_message(s@),
{
    let mut m = String::from_str("color must be '#RRGGBB' or '#RRGGBBAA' hex, got '");
    m.append(s);
    m.append("'");
    m
}

fn digits_message_exec(s: &str) -> (m: String)
    ensures
        m@ == digits_message(s@),
{
    let mut m = String::from_str("invalid hex color '");
    m.append(s);
    m.append("'");
    m
}

/// Parse a `"#RRGGBB"` or `"#RRGGBBAA"` hex color string into a [`Color`].
///
/// The `#` prefix is required, and every group is two hexadecimal digits;
/// any other input, non-ASCII text included, gives an error.  A string of the wrong shape gets the message
/// naming the accepted forms; a right-shaped string with a group that is not
/// a hex byte gets the "invalid hex color" message.
pub fn parse_hex_color(s: &str) -> (r: Result<Color, String>)
    ensures
        match hex_color_outcome(s.spec_bytes()) {
            Ok(c) => r == Ok::<Color, String>(c),
            Err(HexColorFault::Shape) => r is Err && r->Err_0@ == shape_message(s@),
            Err(HexColorFault::Digits) => r is Err && r->Err_0@ == digits_message(s@),
        },
{
    match read_hex_color(s) {
        Ok(c) => Ok(c),
        Err(HexColorFault::Shape) => Err(shape_message_exec(s)),
        Err(HexColorFault::Digits) => Err(digits_message_exec(s)),
    }
}

/// Parse a two-character hex byte; on failure the message names the whole
/// color string `full_input`.
pub fn parse_hex_byte(hex2: &str, full_input: &str) -> (r: Result<u8, String>)
    ensures
        match hex_byte(hex2.spec_bytes()) {
            Some(v) => r == Ok::<u8, String>(v),
            None => r is Err && r->Err_0@ == digits_message(full_input@),
        },
{
    let b = hex2.as_bytes();
    if b.len() != 2 {
        return Err(digits_message_exec(full_input));
    }
    assert(b@.subrange(0, 2) =~= b@);
    match hex_byte_at(b, 0) {
        Some(v) => Ok(v),
        None => Err(digits_message_exec(full_input)),
    }
}

/// Error produced when a VFX configuration color cannot be read.
#[derive(Debug)]
pub enum VfxConfigError {
    /// A color field holds a malformed hex string.
    InvalidColor { field: &'static str, value: String },
}

/// Parse a `"#RRGGBB"` or `"#RRGGBBAA"` VFX color into `(r, g, b, a)`; the
/// alpha is 255 for the six-digit form.  Every malformed input gives
/// [`VfxConfigError::InvalidColor`] naming `field` and the input.
pub fn parse_hex_color_vfx(s: &str, field: &'static str) -> (r: Result<(u8, u8, u8, u8), VfxConfigError>)
    ensures
        match hex_color_outcome(s.spec_bytes()) {
            Ok(c) => r == Ok::<(u8, u8, u8, u8), VfxConfigError>((c.r, c.g, c.b, c.a)),
            Err(_) => r matches Err(VfxConfigError::InvalidColor { field: f, value: v })
                && f == field && v@ == s@,
        },
{
    match read_hex_color(s) {
        Ok(c) => Ok((c.r, c.g, c.b, c.a)),
        Err(_) => Err(VfxConfigError::InvalidColor { field, value: String::from_str(s) }),
    }
}

// ── Laws of the hex notation ─────────────────────────────────────────────────

/// Lower-case hexadecimal digit byte of `v` (`0 <= v < 16`).
pub open spec fn hex_char(v: int) -> u8 {
    if v < 10 {
        (0x30 + v) as u8
    } else {
        (0x61 + v - 10) as u8
    }
}

/// The two hex digit bytes of a byte, high digit first.
pub open spec fn byte_text(b: u8) -> Seq<u8> {
    seq![hex_char((b / 16) as int), hex_char((b % 16) as int)]
}

/// `"#rrggbbaa"`: the eight-digit notation of a color.
pub open spec fn hex_text(c: Color) -> Seq<u8> {
    seq![0x23u8] + byte_text(c.r) + byte_text(c.g) + byte_text(c.b) + byte_text(c.a)
}

proof fn lemma_byte_text(b: u8)
    ensures
        hex_byte(byte_text(b)) == Some(b),
{
    let hi = b / 16;
    let lo = b % 16;
    assert(hex_digit(hex_char(hi as int)) == Some(hi as int));
    assert(hex_digit(hex_char(lo as int)) == Some(lo as int));
    assert(hi * 16 + lo == b);
}

/// Reading back the eight-digit notation of a color gives the color.
pub proof fn law_hex_round_trip(c: Color)
    ensures
        hex_color_outcome(hex_text(c)) == Ok::<Color, HexColorFault>(c),
{
    let t = hex_text(c);
    assert(t.len() == 9);
    assert(t[0] == 0x23);
    lemma_byte_text(c.r);
    lemma_byte_text(c.g);
    lemma_byte_text(c.b);
    lemma_byte_text(c.a);
    assert(t.subrange(1, 3) =~= byte_text(c.r));
    assert(t.subrange(3, 5) =~= byte_text(c.g));
    assert(t.subrange(5, 7) =~= byte_text(c.b));
    assert(t.subrange(7, 9) =~= byte_text(c.a));
}


/// Upper-case hexadecimal digit byte of `v` (`0 <= v < 16`).
pub open spec fn hex_char_upper(v: int) -> u8 {
    if v < 10 {
        (0x30 + v) as u8
    } else {
        (0x41 + v - 10) as u8
    }
}

/// The two upper-case hex digit bytes of a byte, high digit first.
pub open spec fn byte_text_upper(b: u8) -> Seq<u8> {
    seq![hex_char_upper((b / 16) as int), hex_char_upper((b % 16) as int)]
}

/// `"#RRGGBB"`: the six-digit upper-case notation of an opaque color.
pub open spec fn hex_text_rgb_upper(r: u8, g: u8, b: u8) -> Seq<u8> {
    seq![0x23u8] + byte_text_upper(r) + byte_text_upper(g) + byte_text_upper(b)
}

proof fn lemma_byte_text_upper(b: u8)
    ensures
        hex_byte(byte_text_upper(b)) == Some(b),
{
    let hi = b / 16;
    let lo = b % 16;
    assert(hex_digit(hex_char_upper(hi as int)) == Some(hi as int));
    assert(hex_digit(hex_char_upper(lo as int)) == Some(lo as int));
    assert(hi * 16 + lo == b);
}

/// Reading back the six-digit upper-case notation of red, green and blue
/// gives the opaque color with those channels.
pub proof fn law_hex_rgb_upper_round_trip(r: u8, g: u8, b: u8)
    ensures
        hex_color_outcome(hex_text_rgb_upper(r, g, b)) == Ok::<Color, HexColorFault>(Color { r, g, b, a: 255 }),
{
    let t = hex_text_rgb_upper(r, g, b);
    assert(t.len() == 7);
    assert(t[0] == 0x23);
    lemma_byte_text_upper(r);
    lemma_byte_text_upper(g);
    lemma_byte_text_upper(b);
    assert(t.subrange(1, 3) =~= byte_text_upper(r));
    assert(t.subrange(3, 5) =~= byte_text_upper(g));
    assert(t.subrange(5, 7) =~= byte_text_upper(b));
}

} // verus!
