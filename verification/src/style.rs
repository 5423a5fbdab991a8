//! Layout, spacing, typography and colour styling for widgets.
use vstd::prelude::*;

use crate::digits::{byte_hex, i32_to_decimal, int_decimal, push_char, push_hex_byte};
use crate::element::{Element, ElementView};

verus! {

/// Horizontal alignment of an element inside the available width.
#[derive(Clone, Copy, Debug, PartialEq, Eq)]
pub enum Align {
    Start,
    Center,
    End,
    Stretch,
}

/// Weight of a font.
#[derive(Clone, Copy, Debug, PartialEq, Eq)]
pub enum FontWeight {
    Normal,
    Semibold,
    Bold,
}

/// An RGB colour.
#[derive(Clone, Copy, Debug, PartialEq, Eq)]
pub struct Color {
    red: u8,
    green: u8,
    blue: u8,
}

impl View for Color {
    type V = (u8, u8, u8);

    closed spec fn view(&self) -> (u8, u8, u8) {
        (self.red, self.green, self.blue)
    }
}

/// The name an alignment has in attributes.
pub open spec fn align_name(a: Align) -> Seq<char> {
    match a {
        Align::Start => "start"@,
        Align::Center => "center"@,
        Align::End => "end"@,
        Align::Stretch => "stretch"@,
    }
}

/// The name a font weight has in attributes.
pub open spec fn font_weight_name(w: FontWeight) -> Seq<char> {
    match w {
        FontWeight::Normal => "normal"@,
        FontWeight::Semibold => "semibold"@,
        FontWeight::Bold => "bold"@,
    }
}

/// `#rrggbb` in lowercase hexadecimal.
pub open spec fn color_hex(c: (u8, u8, u8)) -> Seq<char> {
    seq!['#'] + byte_hex(c.0) + byte_hex(c.1) + byte_hex(c.2)
}

impl Color {
    pub fn rgb(red: u8, green: u8, blue: u8) -> (r: Color)
        ensures
            r@ == (red, green, blue),
    {
        Color { red, green, blue }
    }

    /// The colour as `#rrggbb`.
    pub fn to_hex(self) -> (r: String)
        ensures
            r@ == color_hex(self@),
    {
        let mut s = String::new();
        push_char(&mut s, '#');
        push_hex_byte(&mut s, self.red);
        push_hex_byte(&mut s, self.green);
        push_hex_byte(&mut s, self.blue);
        assert(s@ =~= color_hex(self@));
        s
    }
}

impl Align {
    pub fn as_str(self) -> (r: &'static str)
        ensures
            r@ == align_name(self),
    {
        match self {
            Align::Start => "start",
            Align::Center => "center",
            Align::End => "end",
            Align::Stretch => "stretch",
        }
    }
}

impl FontWeight {
    pub fn as_str(self) -> (r: &'static str)
        ensures
            r@ == font_weight_name(self),
    {
        match self {
            FontWeight::Normal => "normal",
            FontWeight::Semibold => "semibold",
            FontWeight::Bold => "bold",
        }
    }
}

/// The mathematical form of a [`Style`]: which properties are set.
pub struct StyleView {
    pub width: Option<i32>,
    pub min_width: Option<i32>,
    pub max_width: Option<i32>,
    pub height: Option<i32>,
    pub gap: Option<i32>,
    pub align: Option<Align>,
    pub font_size: Option<i32>,
    pub font_weight: Option<FontWeight>,
    pub color: Option<(u8, u8, u8)>,
    pub background: Option<(u8, u8, u8)>,
}

/// A set of optional style properties.
#[derive(Debug, PartialEq, Eq)]
pub struct Style {
    width: Option<i32>,
    min_width: Option<i32>,
    max_width: Option<i32>,
    height: Option<i32>,
    gap: Option<i32>,
    align: Option<Align>,
    font_size: Option<i32>,
    font_weight: Option<FontWeight>,
    color: Option<Color>,
    background: Option<Color>,
}

/// The view of an optional colour.
pub open spec fn opt_color_view(c: Option<Color>) -> Option<(u8, u8, u8)> {
    match c {
        Some(c) => Some(c@),
        None => None,
    }
}

impl View for Style {
    type V = StyleView;

    closed spec fn view(&self) -> StyleView {
        StyleView {
            width: self.width,
            min_width: self.min_width,
            max_width: self.max_width,
            height: self.height,
            gap: self.gap,
            align: self.align,
            font_size: self.font_size,
            font_weight: self.font_weight,
            color: opt_color_view(self.color),
            background: opt_color_view(self.background),
        }
    }
}

/// A style with no property set.
pub open spec fn empty_style() -> StyleView {
    StyleView {
        width: None,
        min_width: None,
        max_width: None,
        height: None,
        gap: None,
        align: None,
        font_size: None,
        font_weight: None,
        color: None,
        background: None,
    }
}

/// `e` with attribute `name` set to `value` when there is a value.
pub open spec fn with_optional(e: ElementView, name: Seq<char>, value: Option<Seq<char>>) -> ElementView {
    match value {
        Some(v) => e.with_attribute(name, v),
        None => e,
    }
}

/// The decimal text of an optional number.
pub open spec fn opt_decimal(n: Option<i32>) -> Option<Seq<char>> {
    match n {
        Some(v) => Some(int_decimal(v as int)),
        None => None,
    }
}

/// The attribute text of an optional alignment.
pub open spec fn opt_align(a: Option<Align>) -> Option<Seq<char>> {
    match a {
        Some(v) => Some(align_name(v)),
        None => None,
    }
}

/// The attribute text of an optional font weight.
pub open spec fn opt_font_weight(w: Option<FontWeight>) -> Option<Seq<char>> {
    match w {
        Some(v) => Some(font_weight_name(v)),
        None => None,
    }
}

/// The attribute text of an optional colour.
pub open spec fn opt_hex(c: Option<(u8, u8, u8)>) -> Option<Seq<char>> {
    match c {
        Some(v) => Some(color_hex(v)),
        None => None,
    }
}

/// `e` with each property that `s` sets written as an attribute, in the
/// order width, min_width, max_width, height, gap, align, font_size,
/// font_weight, color, background.
pub open spec fn styled(s: StyleView, e: ElementView) -> ElementView {
    let e1 = with_optional(e, "width"@, opt_decimal(s.width));
    let e2 = with_optional(e1, "min_width"@, opt_decimal(s.min_width));
    let e3 = with_optional(e2, "max_width"@, opt_decimal(s.max_width));
    let e4 = with_optional(e3, "height"@, opt_decimal(s.height));
    let e5 = with_optional(e4, "gap"@, opt_decimal(s.gap));
    let e6 = with_optional(e5, "align"@, opt_align(s.align));
    let e7 = with_optional(e6, "font_size"@, opt_decimal(s.font_size));
    let e8 = with_optional(e7, "font_weight"@, opt_font_weight(s.font_weight));
    let e9 = with_optional(e8, "color"@, opt_hex(s.color));
    with_optional(e9, "background"@, opt_hex(s.background))
}

fn apply_number(element: Element, name: &str, value: Option<i32>) -> (r: Element)
    ensures
        r@ == with_optional(element@, name@, opt_decimal(value)),
{
    match value {
        Some(v) => element.with_attribute(name, i32_to_decimal(v).as_str()),
        None => element,
    }
}

fn apply_color(element: Element, name: &str, value: Option<Color>) -> (r: Element)
    ensures
        r@ == with_optional(element@, name@, opt_hex(opt_color_view(value))),
{
    match value {
        Some(c) => element.with_attribute(name, c.to_hex().as_str()),
        None => element,
    }
}

impl Clone for Style {
    /// A style that sets the same properties to the same values.
    fn clone(&self) -> (r: Style)
        ensures
            r@ == self@,
    {
        Style {
            width: self.width,
            min_width: self.min_width,
            max_width: self.max_width,
            height: self.height,
            gap: self.gap,
            align: self.align,
            font_size: self.font_size,
            font_weight: self.font_weight,
            color: self.color,
            background: self.background,
        }
    }
}

impl Default for Style {
    fn default() -> (r: Style)
        ensures
            r@ == empty_style(),
    {
        Style {
            width: None,
            min_width: None,
            max_width: None,
            height: None,
            gap: None,
            align: None,
            font_size: None,
            font_weight: None,
            color: None,
            background: None,
        }
    }
}

impl Style {
    pub fn new() -> (r: Style)
        ensures
            r@ == empty_style(),
    {
        Style::default()
    }

    pub fn width(self, width: i32) -> (r: Style)
        ensures
            r@ == (StyleView { width: Some(width), ..self@ }),
    {
        Style { width: Some(width), ..self }
    }

    pub fn min_width(self, min_width: i32) -> (r: Style)
        ensures
            r@ == (StyleView { min_width: Some(min_width), ..self@ }),
    {
        Style { min_width: Some(min_width), ..self }
    }

    pub fn max_width(self, max_width: i32) -> (r: Style)
        ensures
            r@ == (StyleView { max_width: Some(max_width), ..self@ }),
    {
        Style { max_width: Some(max_width), ..self }
    }

    pub fn height(self, height: i32) -> (r: Style)
        ensures
            r@ == (StyleView { height: Some(height), ..self@ }),
    {
        Style { height: Some(height), ..self }
    }

    pub fn gap(self, gap: i32) -> (r: Style)
        ensures
            r@ == (StyleView { gap: Some(gap), ..self@ }),
    {
        Style { gap: Some(gap), ..self }
    }

    pub fn align(self, align: Align) -> (r: Style)
        ensures
            r@ == (StyleView { align: Some(align), ..self@ }),
    {
        Style { align: Some(align), ..self }
    }

    pub fn font_size(self, font_size: i32) -> (r: Style)
        ensures
            r@ == (StyleView { font_size: Some(font_size), ..self@ }),
    {
        Style { font_size: Some(font_size), ..self }
    }

    pub fn font_weight(self, font_weight: FontWeight) -> (r: Style)
        ensures
            r@ == (StyleView { font_weight: Some(font_weight), ..self@ }),
    {
        Style { font_weight: Some(font_weight), ..self }
    }

    pub fn color(self, color: Color) -> (r: Style)
        ensures
            r@ == (StyleView { color: Some(color@), ..self@ }),
    {
        Style { color: Some(color), ..self }
    }

    pub fn background(self, color: Color) -> (r: Style)
        ensures
            r@ == (StyleView { background: Some(color@), ..self@ }),
    {
        Style { background: Some(color), ..self }
    }

    /// Writes each property that is set onto `element` as an attribute.
    pub fn apply_to(&self, element: Element) -> (r: Element)
        ensures
            r@ == styled(self@, element@),
    {
        let e = apply_number(element, "width", self.width);
        let e = apply_number(e, "min_width", self.min_width);
        let e = apply_number(e, "max_width", self.max_width);
        let e = apply_number(e, "height", self.height);
        let e = apply_number(e, "gap", self.gap);
        let e = match self.align {
            Some(a) => e.with_attribute("align", a.as_str()),
            None => e,
        };
        let e = apply_number(e, "font_size", self.font_size);
        let e = match self.font_weight {
            Some(w) => e.with_attribute("font_weight", w.as_str()),
            None => e,
        };
        let e = apply_color(e, "color", self.color);
        apply_color(e, "background", self.background)
    }
}

} // verus!
