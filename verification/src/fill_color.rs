//! The fill colour of symbol rectangles, parsed from `#RRGGBB` or `#RRGGBBAA`.
use vstd::prelude::*;
use crate::text::{
    chars_of, decimal, decimal_chars, extend_chars, extend_str, is_hex_digit, string_from, trim,
    trim_chars,
};
use crate::error::AppError;

verus! {

/// An RGBA colour for filled symbol rectangles.
#[derive(Debug, Clone, Copy, PartialEq, Eq, Structural)]
pub struct SymbolFillColor {
    pub red: u8,
    pub green: u8,
    pub blue: u8,
    pub alpha: u8,
}

/// The value of a hexadecimal digit.
pub open spec fn hex_value(c: char) -> int {
    if '0' <= c && c <= '9' {
        (c as u32) - 48
    } else if 'a' <= c && c <= 'f' {
        (c as u32) - 87
    } else if 'A' <= c && c <= 'F' {
        (c as u32) - 55
    } else {
        0
    }
}

/// The byte written by the two hex digits at `i` and `i + 1` of `h`.
pub open spec fn hex_byte(h: Seq<char>, i: int) -> int {
    hex_value(h[i]) * 16 + hex_value(h[i + 1])
}

/// The digits of a colour: trimmed, without one leading `#`.
pub open spec fn color_digits(v: Seq<char>) -> Seq<char> {
    let t = trim(v);
    if t.len() > 0 && t[0] == '#' {
        t.drop_first()
    } else {
        t
    }
}

/// The colour that `v` writes, if it is six or eight hex digits after an optional `#`;
/// without the last two digits the colour is fully opaque.
pub open spec fn parsed_color(v: Seq<char>) -> Option<SymbolFillColor> {
    let h = color_digits(v);
    if (h.len() == 6 || h.len() == 8) && forall|i: int| 0 <= i < h.len() ==> is_hex_digit(#[trigger] h[i]) {
        Some(
            SymbolFillColor {
                red: hex_byte(h, 0) as u8,
                green: hex_byte(h, 2) as u8,
                blue: hex_byte(h, 4) as u8,
                alpha: if h.len() == 8 {
                    hex_byte(h, 6) as u8
                } else {
                    255u8
                },
            },
        )
    } else {
        None
    }
}

/// `s` without its trailing `0` characters.
pub open spec fn strip_zeros(s: Seq<char>) -> Seq<char>
    decreases s.len(),
{
    if s.len() > 0 && s.last() == '0' {
        strip_zeros(s.drop_last())
    } else {
        s
    }
}

/// The thousandths of `a / 255`, rounded to the nearest (no value lies halfway).
pub open spec fn alpha_thousandths(a: u8) -> int {
    (2000 * a + 255) / 510
}

/// The opacity written as KiCad wants it: `0`, `1`, or a fraction of at most three decimals
/// without trailing zeros.
pub open spec fn alpha_text(a: u8) -> Seq<char> {
    if a == 0 {
        "0"@
    } else if a == 255 {
        "1"@
    } else {
        let n = alpha_thousandths(a);
        "0."@ + strip_zeros(
            seq![
                crate::text::digit_char((n / 100) as nat),
                crate::text::digit_char(((n / 10) % 10) as nat),
                crate::text::digit_char((n % 10) as nat),
            ],
        )
    }
}

/// The KiCad fill clause for colour `c`.
pub open spec fn fill_text(c: SymbolFillColor) -> Seq<char> {
    "(fill (type color) (color "@ + decimal(c.red as nat) + " "@ + decimal(c.green as nat) + " "@
        + decimal(c.blue as nat) + " "@ + alpha_text(c.alpha) + "))"@
}

fn hex_digit_value(c: char) -> (r: u8)
    requires
        is_hex_digit(c),
    ensures
        r == hex_value(c),
        r < 16,
{
    if '0' <= c && c <= '9' {
        ((c as u32) - 48) as u8
    } else if 'a' <= c && c <= 'f' {
        ((c as u32) - 87) as u8
    } else {
        ((c as u32) - 55) as u8
    }
}

fn byte_at(h: &[char], i: usize) -> (r: u8)
    requires
        i + 1 < h.len(),
        is_hex_digit(h@[i as int]),
        is_hex_digit(h@[i + 1]),
    ensures
        r == hex_byte(h@, i as int),
{
    let hi = hex_digit_value(h[i]);
    let lo = hex_digit_value(h[i + 1]);
    hi * 16 + lo
}

fn digit_of(d: u32) -> (r: char)
    requires
        d < 10,
    ensures
        r == crate::text::digit_char(d as nat),
{
    let ds = decimal_chars(d as u64);
    assert(ds@ == decimal(d as nat));
    ds[0]
}

impl SymbolFillColor {
    /// Reads a colour written `#RRGGBB` or `#RRGGBBAA` (the `#` may be left out).
    pub fn parse(value: &str) -> (r: Result<Self, AppError>)
        ensures
            match r {
                Ok(c) => parsed_color(value@) == Some(c),
                Err(e) => parsed_color(value@) is None && (e matches AppError::Other(m) && m@
                    == "Invalid symbol fill color '"@ + value@ + "'. Expected #RRGGBB or #RRGGBBAA"@),
            },
    {
        let cs = chars_of(value);
        let t = trim_chars(cs.as_slice());
        let h: Vec<char> = if t.len() > 0 && t[0] == '#' {
            crate::sexpr::slice_range(t.as_slice(), 1, t.len())
        } else {
            t
        };
        assert(h@ =~= color_digits(value@));
        let mut ok = h.len() == 6 || h.len() == 8;
        let mut i: usize = 0;
        while i < h.len()
            invariant
                i <= h.len(),
                ok <==> ((h@.len() == 6 || h@.len() == 8) && forall|j: int|
                    0 <= j < i ==> is_hex_digit(#[trigger] h@[j])),
            decreases h.len() - i,
        {
            let c = h[i];
            let is_hex = ('0' <= c && c <= '9') || ('a' <= c && c <= 'f') || ('A' <= c && c
                <= 'F');
            if !is_hex {
                ok = false;
            }
            i = i + 1;
        }
        if !ok {
            let mut m: Vec<char> = Vec::new();
            extend_str(&mut m, "Invalid symbol fill color '");
            extend_str(&mut m, value);
            extend_str(&mut m, "'. Expected #RRGGBB or #RRGGBBAA");
            return Err(AppError::Other(string_from(m.as_slice())));
        }
        let red = byte_at(h.as_slice(), 0);
        let green = byte_at(h.as_slice(), 2);
        let blue = byte_at(h.as_slice(), 4);
        let alpha = if h.len() == 8 {
            byte_at(h.as_slice(), 6)
        } else {
            255u8
        };
        Ok(SymbolFillColor { red, green, blue, alpha })
    }

    /// The opacity as KiCad writes it.
    pub fn alpha_to_kicad(self) -> (r: String)
        ensures
            r@ == alpha_text(self.alpha),
    {
        if self.alpha == 0 {
            return "0".to_owned();
        }
        if self.alpha == 255 {
            return "1".to_owned();
        }
        let a: u32 = self.alpha as u32;
        let n: u32 = (2000 * a + 255) / 510;
        assert(n == alpha_thousandths(self.alpha));
        assert(n < 1000) by (nonlinear_arith)
            requires
                n == (2000 * a + 255) / 510,
                a < 255,
        ;
        let mut digits: Vec<char> = Vec::new();
        digits.push(digit_of(n / 100));
        digits.push(digit_of((n / 10) % 10));
        digits.push(digit_of(n % 10));
        let ghost full = digits@;
        assert(full =~= seq![
            crate::text::digit_char((alpha_thousandths(self.alpha) / 100) as nat),
            crate::text::digit_char(((alpha_thousandths(self.alpha) / 10) % 10) as nat),
            crate::text::digit_char((alpha_thousandths(self.alpha) % 10) as nat),
        ]);
        while digits.len() > 0 && digits[digits.len() - 1] == '0'
            invariant
                strip_zeros(full) == strip_zeros(digits@),
            decreases digits.len(),
        {
            digits.pop();
        }
        assert(strip_zeros(digits@) == digits@);
        let mut out: Vec<char> = Vec::new();
        extend_str(&mut out, "0.");
        extend_chars(&mut out, digits.as_slice());
        string_from(out.as_slice())
    }

    /// The KiCad fill clause for this colour.
    pub fn to_kicad_fill(self) -> (r: String)
        ensures
            r@ == fill_text(self),
    {
        let mut out: Vec<char> = Vec::new();
        extend_str(&mut out, "(fill (type color) (color ");
        let r = decimal_chars(self.red as u64);
        extend_chars(&mut out, r.as_slice());
        extend_str(&mut out, " ");
        let g = decimal_chars(self.green as u64);
        extend_chars(&mut out, g.as_slice());
        extend_str(&mut out, " ");
        let b = decimal_chars(self.blue as u64);
        extend_chars(&mut out, b.as_slice());
        extend_str(&mut out, " ");
        let a = self.alpha_to_kicad();
        extend_str(&mut out, a.as_str());
        extend_str(&mut out, "))");
        string_from(out.as_slice())
    }
}

/// How filled symbol rectangles are filled: with a colour, or with the background.
pub open spec fn rectangle_fill_text(color: Option<SymbolFillColor>, filled: bool) -> Seq<char> {
    if !filled {
        "(fill (type none))"@
    } else {
        match color {
            Some(c) => fill_text(c),
            None => "(fill (type background))"@,
        }
    }
}

/// Writes KiCad symbols; holds the fill colour of its filled rectangles.
#[derive(Debug, Clone, Copy, PartialEq, Eq)]
pub struct SymbolExporter {
    pub rectangle_fill_color: Option<SymbolFillColor>,
}

impl SymbolExporter {
    /// An exporter that fills rectangles with `rectangle_fill_color`, or with the background
    /// when there is none.
    pub fn new(rectangle_fill_color: Option<SymbolFillColor>) -> (r: Self)
        ensures
            r.rectangle_fill_color == rectangle_fill_color,
    {
        SymbolExporter { rectangle_fill_color }
    }

    /// The fill clause of a rectangle, filled or not.
    pub fn rectangle_fill(&self, filled: bool) -> (r: String)
        ensures
            r@ == rectangle_fill_text(self.rectangle_fill_color, filled),
    {
        if !filled {
            "(fill (type none))".to_owned()
        } else {
            match self.rectangle_fill_color {
                Some(c) => c.to_kicad_fill(),
                None => "(fill (type background))".to_owned(),
            }
        }
    }
}

} // verus!
