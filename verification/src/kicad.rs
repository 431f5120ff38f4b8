//! KiCad names for layers, pads and pins, KiCad string escaping, and symbol fill colours.
use vstd::prelude::*;
use crate::text::{
    chars_of, decimal, decimal_chars, digit_char, extend_chars, extend_str, is_hex_digit, string_from,
    trim, trim_chars, str_eq,
};

verus! {

/// `s` as a KiCad string body: backslash, quote and the control characters `\n`, `\r`,
/// `\t` written as backslash escapes.
pub open spec fn kicad_escaped(s: Seq<char>) -> Seq<char>
    decreases s.len(),
{
    if s.len() == 0 {
        Seq::empty()
    } else {
        kicad_escaped(s.drop_last()) + escape_one(s.last())
    }
}

pub open spec fn escape_one(c: char) -> Seq<char> {
    if c == '\\' {
        seq!['\\', '\\']
    } else if c == '"' {
        seq!['\\', '"']
    } else if c == '\n' {
        seq!['\\', 'n']
    } else if c == '\r' {
        seq!['\\', 'r']
    } else if c == '\t' {
        seq!['\\', 't']
    } else {
        seq![c]
    }
}

/// Escapes `value` for use inside a quoted KiCad string.
pub fn escape_kicad_string(value: &str) -> (r: String)
    ensures
        r@ == kicad_escaped(value@),
{
    let cs = chars_of(value);
    let mut out: Vec<char> = Vec::new();
    let mut i: usize = 0;
    while i < cs.len()
        invariant
            i <= cs.len(),
            cs@ == value@,
            out@ == kicad_escaped(cs@.take(i as int)),
        decreases cs.len() - i,
    {
        let c = cs[i];
        if c == '\\' {
            out.push('\\');
            out.push('\\');
        } else if c == '"' {
            out.push('\\');
            out.push('"');
        } else if c == '\n' {
            out.push('\\');
            out.push('n');
        } else if c == '\r' {
            out.push('\\');
            out.push('r');
        } else if c == '\t' {
            out.push('\\');
            out.push('t');
        } else {
            out.push(c);
        }
        assert(cs@.take(i + 1).drop_last() =~= cs@.take(i as int));
        i = i + 1;
        assert(out@ =~= kicad_escaped(cs@.take(i as int)));
    }
    assert(cs@.take(cs.len() as int) =~= cs@);
    string_from(out.as_slice())
}

/// The KiCad layer that an EasyEDA graphics layer number stands for.
pub open spec fn layer_name(id: i32) -> Seq<char> {
    if id == 1 {
        "F.Cu"@
    } else if id == 2 {
        "B.Cu"@
    } else if id == 3 {
        "F.SilkS"@
    } else if id == 4 {
        "B.SilkS"@
    } else if id == 5 {
        "F.Paste"@
    } else if id == 6 {
        "B.Paste"@
    } else if id == 7 {
        "F.Mask"@
    } else if id == 8 {
        "B.Mask"@
    } else if id == 10 || id == 11 {
        "Edge.Cuts"@
    } else if id == 12 {
        "Cmts.User"@
    } else if id == 13 || id == 101 {
        "F.Fab"@
    } else if id == 14 {
        "B.Fab"@
    } else if id == 15 {
        "Dwgs.User"@
    } else {
        "F.SilkS"@
    }
}

fn owned(s: &str) -> (r: String)
    ensures
        r@ == s@,
{
    s.to_owned()
}

/// The KiCad layer for an EasyEDA graphics layer number; unknown numbers go to the front
/// silk screen.
pub fn map_layer(layer_id: i32) -> (r: String)
    ensures
        r@ == layer_name(layer_id),
{
    let name = if layer_id == 1 {
        "F.Cu"
    } else if layer_id == 2 {
        "B.Cu"
    } else if layer_id == 3 {
        "F.SilkS"
    } else if layer_id == 4 {
        "B.SilkS"
    } else if layer_id == 5 {
        "F.Paste"
    } else if layer_id == 6 {
        "B.Paste"
    } else if layer_id == 7 {
        "F.Mask"
    } else if layer_id == 8 {
        "B.Mask"
    } else if layer_id == 10 || layer_id == 11 {
        "Edge.Cuts"
    } else if layer_id == 12 {
        "Cmts.User"
    } else if layer_id == 13 || layer_id == 101 {
        "F.Fab"
    } else if layer_id == 14 {
        "B.Fab"
    } else if layer_id == 15 {
        "Dwgs.User"
    } else {
        "F.SilkS"
    };
    owned(name)
}

pub open spec fn strings_view(v: Seq<String>) -> Seq<Seq<char>> {
    v.map_values(|s: String| s@)
}

/// The layers of a surface-mount pad on an EasyEDA layer.
pub open spec fn smd_pad_layers(id: i32) -> Seq<Seq<char>> {
    if id == 2 {
        seq!["B.Cu"@, "B.Paste"@, "B.Mask"@]
    } else if id == 3 {
        seq!["F.SilkS"@]
    } else if id == 11 {
        seq!["*.Cu"@, "*.Paste"@, "*.Mask"@]
    } else if id == 13 {
        seq!["F.Fab"@]
    } else if id == 15 {
        seq!["Dwgs.User"@]
    } else {
        seq!["F.Cu"@, "F.Paste"@, "F.Mask"@]
    }
}

/// The layers of a through-hole pad on an EasyEDA layer.
pub open spec fn tht_pad_layers(id: i32) -> Seq<Seq<char>> {
    if id == 1 {
        seq!["F.Cu"@, "F.Mask"@]
    } else if id == 2 {
        seq!["B.Cu"@, "B.Mask"@]
    } else if id == 3 {
        seq!["F.SilkS"@]
    } else if id == 13 {
        seq!["F.Fab"@]
    } else if id == 15 {
        seq!["Dwgs.User"@]
    } else {
        seq!["*.Cu"@, "*.Mask"@]
    }
}

fn layers1(a: &str) -> (r: Vec<String>)
    ensures
        strings_view(r@) == seq![a@],
{
    let mut v: Vec<String> = Vec::new();
    v.push(owned(a));
    assert(strings_view(v@) =~= seq![a@]);
    v
}

fn layers2(a: &str, b: &str) -> (r: Vec<String>)
    ensures
        strings_view(r@) == seq![a@, b@],
{
    let mut v: Vec<String> = Vec::new();
    v.push(owned(a));
    v.push(owned(b));
    assert(strings_view(v@) =~= seq![a@, b@]);
    v
}

fn layers3(a: &str, b: &str, c: &str) -> (r: Vec<String>)
    ensures
        strings_view(r@) == seq![a@, b@, c@],
{
    let mut v: Vec<String> = Vec::new();
    v.push(owned(a));
    v.push(owned(b));
    v.push(owned(c));
    assert(strings_view(v@) =~= seq![a@, b@, c@]);
    v
}

/// The KiCad layers of a surface-mount pad on EasyEDA layer `layer_id`.
pub fn map_pad_layers_smd(layer_id: i32) -> (r: Vec<String>)
    ensures
        strings_view(r@) == smd_pad_layers(layer_id),
{
    if layer_id == 2 {
        layers3("B.Cu", "B.Paste", "B.Mask")
    } else if layer_id == 3 {
        layers1("F.SilkS")
    } else if layer_id == 11 {
        layers3("*.Cu", "*.Paste", "*.Mask")
    } else if layer_id == 13 {
        layers1("F.Fab")
    } else if layer_id == 15 {
        layers1("Dwgs.User")
    } else {
        layers3("F.Cu", "F.Paste", "F.Mask")
    }
}

/// The KiCad layers of a through-hole pad on EasyEDA layer `layer_id`.
pub fn map_pad_layers_tht(layer_id: i32) -> (r: Vec<String>)
    ensures
        strings_view(r@) == tht_pad_layers(layer_id),
{
    if layer_id == 1 {
        layers2("F.Cu", "F.Mask")
    } else if layer_id == 2 {
        layers2("B.Cu", "B.Mask")
    } else if layer_id == 3 {
        layers1("F.SilkS")
    } else if layer_id == 13 {
        layers1("F.Fab")
    } else if layer_id == 15 {
        layers1("Dwgs.User")
    } else {
        layers2("*.Cu", "*.Mask")
    }
}

/// How a footprint pad is mounted.
#[derive(Debug, Clone, Copy, PartialEq, Eq, Structural)]
pub enum PadType {
    Smd,
    ThroughHole,
    NpThroughHole,
    Connect,
}

pub open spec fn pad_type_name(t: PadType) -> Seq<char> {
    match t {
        PadType::Smd => "smd"@,
        PadType::ThroughHole => "thru_hole"@,
        PadType::NpThroughHole => "np_thru_hole"@,
        PadType::Connect => "connect"@,
    }
}

impl PadType {
    /// The KiCad keyword for this pad type.
    pub fn to_kicad(&self) -> (r: &'static str)
        ensures
            r@ == pad_type_name(*self),
    {
        match self {
            PadType::Smd => "smd",
            PadType::ThroughHole => "thru_hole",
            PadType::NpThroughHole => "np_thru_hole",
            PadType::Connect => "connect",
        }
    }
}

/// The outline of a footprint pad.
#[derive(Debug, Clone, Copy, PartialEq, Eq, Structural)]
pub enum PadShape {
    Circle,
    Rect,
    Oval,
    Trapezoid,
    RoundRect,
    Custom,
}

pub open spec fn pad_shape_of(shape: Seq<char>) -> PadShape {
    if shape == "ELLIPSE"@ || shape == "ROUND"@ {
        PadShape::Circle
    } else if shape == "OVAL"@ {
        PadShape::Oval
    } else if shape == "POLYGON"@ {
        PadShape::Custom
    } else {
        PadShape::Rect
    }
}

pub open spec fn pad_shape_name(s: PadShape) -> Seq<char> {
    match s {
        PadShape::Circle => "circle"@,
        PadShape::Rect => "rect"@,
        PadShape::Oval => "oval"@,
        PadShape::Trapezoid => "trapezoid"@,
        PadShape::RoundRect => "roundrect"@,
        PadShape::Custom => "custom"@,
    }
}

impl PadShape {
    /// The pad shape for an EasyEDA shape name; unknown names are rectangles.
    pub fn from_easyeda(shape: &str) -> (r: Self)
        ensures
            r == pad_shape_of(shape@),
    {
        if str_eq(shape, "ELLIPSE") || str_eq(shape, "ROUND") {
            PadShape::Circle
        } else if str_eq(shape, "OVAL") {
            PadShape::Oval
        } else if str_eq(shape, "POLYGON") {
            PadShape::Custom
        } else {
            PadShape::Rect
        }
    }

    /// The KiCad keyword for this shape.
    pub fn to_kicad(&self) -> (r: &'static str)
        ensures
            r@ == pad_shape_name(*self),
    {
        match self {
            PadShape::Circle => "circle",
            PadShape::Rect => "rect",
            PadShape::Oval => "oval",
            PadShape::Trapezoid => "trapezoid",
            PadShape::RoundRect => "roundrect",
            PadShape::Custom => "custom",
        }
    }
}

/// The electrical type of a symbol pin.
#[derive(Debug, Clone, Copy, PartialEq, Eq, Structural)]
pub enum PinType {
    Input,
    Output,
    Bidirectional,
    TriState,
    Passive,
    Unspecified,
    PowerIn,
    PowerOut,
    OpenCollector,
    OpenEmitter,
    NoConnect,
}

pub open spec fn pin_type_of(code: Seq<char>) -> PinType {
    if code == "I"@ {
        PinType::Input
    } else if code == "O"@ {
        PinType::Output
    } else if code == "B"@ {
        PinType::Bidirectional
    } else if code == "T"@ {
        PinType::TriState
    } else if code == "U"@ {
        PinType::Unspecified
    } else if code == "W"@ {
        PinType::PowerIn
    } else if code == "w"@ {
        PinType::PowerOut
    } else if code == "C"@ {
        PinType::OpenCollector
    } else if code == "E"@ {
        PinType::OpenEmitter
    } else if code == "N"@ {
        PinType::NoConnect
    } else {
        PinType::Passive
    }
}

pub open spec fn pin_type_name(t: PinType) -> Seq<char> {
    match t {
        PinType::Input => "input"@,
        PinType::Output => "output"@,
        PinType::Bidirectional => "bidirectional"@,
        PinType::TriState => "tri_state"@,
        PinType::Passive => "passive"@,
        PinType::Unspecified => "unspecified"@,
        PinType::PowerIn => "power_in"@,
        PinType::PowerOut => "power_out"@,
        PinType::OpenCollector => "open_collector"@,
        PinType::OpenEmitter => "open_emitter"@,
        PinType::NoConnect => "no_connect"@,
    }
}

impl PinType {
    /// The pin type for an EasyEDA electric type code; unknown codes are passive.
    pub fn from_easyeda(electric_type: &str) -> (r: Self)
        ensures
            r == pin_type_of(electric_type@),
    {
        let e = electric_type;
        if str_eq(e, "I") {
            PinType::Input
        } else if str_eq(e, "O") {
            PinType::Output
        } else if str_eq(e, "B") {
            PinType::Bidirectional
        } else if str_eq(e, "T") {
            PinType::TriState
        } else if str_eq(e, "U") {
            PinType::Unspecified
        } else if str_eq(e, "W") {
            PinType::PowerIn
        } else if str_eq(e, "w") {
            PinType::PowerOut
        } else if str_eq(e, "C") {
            PinType::OpenCollector
        } else if str_eq(e, "E") {
            PinType::OpenEmitter
        } else if str_eq(e, "N") {
            PinType::NoConnect
        } else {
            PinType::Passive
        }
    }

    /// The KiCad keyword for this pin type.
    pub fn to_kicad(&self) -> (r: &'static str)
        ensures
            r@ == pin_type_name(*self),
    {
        match self {
            PinType::Input => "input",
            PinType::Output => "output",
            PinType::Bidirectional => "bidirectional",
            PinType::TriState => "tri_state",
            PinType::Passive => "passive",
            PinType::Unspecified => "unspecified",
            PinType::PowerIn => "power_in",
            PinType::PowerOut => "power_out",
            PinType::OpenCollector => "open_collector",
            PinType::OpenEmitter => "open_emitter",
            PinType::NoConnect => "no_connect",
        }
    }
}

/// How a symbol pin is drawn.
#[derive(Debug, Clone, Copy, PartialEq, Eq, Structural)]
pub enum PinStyle {
    Line,
    Inverted,
    Clock,
    InvertedClock,
    InputLow,
    ClockLow,
    OutputLow,
    EdgeClockHigh,
    NonLogic,
}

pub open spec fn pin_style_name(s: PinStyle) -> Seq<char> {
    match s {
        PinStyle::Line => "line"@,
        PinStyle::Inverted => "inverted"@,
        PinStyle::Clock => "clock"@,
        PinStyle::InvertedClock => "inverted_clock"@,
        PinStyle::InputLow => "input_low"@,
        PinStyle::ClockLow => "clock_low"@,
        PinStyle::OutputLow => "output_low"@,
        PinStyle::EdgeClockHigh => "edge_clock_high"@,
        PinStyle::NonLogic => "non_logic"@,
    }
}

impl PinStyle {
    /// The KiCad keyword for this pin style.
    pub fn to_kicad(&self) -> (r: &'static str)
        ensures
            r@ == pin_style_name(*self),
    {
        match self {
            PinStyle::Line => "line",
            PinStyle::Inverted => "inverted",
            PinStyle::Clock => "clock",
            PinStyle::InvertedClock => "inverted_clock",
            PinStyle::InputLow => "input_low",
            PinStyle::ClockLow => "clock_low",
            PinStyle::OutputLow => "output_low",
            PinStyle::EdgeClockHigh => "edge_clock_high",
            PinStyle::NonLogic => "non_logic",
        }
    }
}

} // verus!
