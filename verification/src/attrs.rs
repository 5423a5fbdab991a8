//! How the native backend reads element attributes: numbers, flags,
//! actions, sizes, font choices and colours.
use vstd::prelude::*;
use vstd::utf8::{
    encode_utf8, encode_utf8_valid_utf8, is_ascii_chars, is_ascii_chars_encode_utf8,
    is_char_boundary, is_char_boundary_iff_not_is_continuation_byte,
};

use crate::digits::{hex_digit, parse_i32, parse_i32_spec};
use crate::style::color_hex;
use crate::element::{
    attribute_views, lemma_first_attribute_at, lemma_first_attribute_none, Element, ElementView,
};

verus! {

/// The gap between the children of a column when none is given.
pub const COLUMN_GAP: i32 = 10;

/// The weight of regular text.
pub const WEIGHT_NORMAL: i32 = 400;

/// The weight of semibold text.
pub const WEIGHT_SEMIBOLD: i32 = 600;

/// The weight of bold text.
pub const WEIGHT_BOLD: i32 = 700;

/// The view of an optional string slice.
pub open spec fn opt_str_view(s: Option<&str>) -> Option<Seq<char>> {
    match s {
        Some(t) => Some(t@),
        None => None,
    }
}

/// The number an attribute holds, when it is there and parses as an `i32`.
pub open spec fn attr_number(e: ElementView, name: Seq<char>) -> Option<i32> {
    match e.attribute(name) {
        Some(v) => parse_i32_spec(v),
        None => None,
    }
}

/// Whether an attribute is present with the value `true`.
pub open spec fn attr_is_true(e: ElementView, name: Seq<char>) -> bool {
    e.attribute(name) == Some("true"@)
}

/// The action of an element: its `on_click`, else its `on_toggle`.
pub open spec fn action_of(e: ElementView) -> Option<Seq<char>> {
    match e.attribute("on_click"@) {
        Some(a) => Some(a),
        None => e.attribute("on_toggle"@),
    }
}

/// The given number, or `default` when there is none.
pub open spec fn number_or(n: Option<i32>, default: i32) -> i32 {
    match n {
        Some(v) => v,
        None => default,
    }
}

/// The height of a control: its `height` attribute, else `default`, at least 1.
pub open spec fn control_height_of(e: ElementView, default: i32) -> i32 {
    let h = number_or(attr_number(e, "height"@), default);
    if h >= 1 {
        h
    } else {
        1
    }
}

/// The gap between children: the `gap` attribute, else the column gap, at least 0.
pub open spec fn gap_of(e: ElementView) -> i32 {
    let g = number_or(attr_number(e, "gap"@), COLUMN_GAP);
    if g >= 0 {
        g
    } else {
        0
    }
}

/// The height of a spacer: its `height` attribute, else the column gap, at least 0.
pub open spec fn spacer_height_of(e: ElementView) -> i32 {
    let h = number_or(attr_number(e, "height"@), COLUMN_GAP);
    if h >= 0 {
        h
    } else {
        0
    }
}

/// The font size used when an element sets none: 22 for headings, else 14.
pub open spec fn default_font_size_of(e: ElementView) -> i32 {
    if e.name == "heading"@ {
        22
    } else {
        14
    }
}

/// The font weight an element asks for.
pub open spec fn font_weight_of(e: ElementView) -> i32 {
    match e.attribute("font_weight"@) {
        Some(w) => if w == "bold"@ {
            WEIGHT_BOLD
        } else if w == "semibold"@ {
            WEIGHT_SEMIBOLD
        } else {
            WEIGHT_NORMAL
        },
        None => WEIGHT_NORMAL,
    }
}

/// Whether two strings hold the same characters.
pub fn text_eq(a: &str, b: &str) -> (r: bool)
    ensures
        r == (a@ == b@),
{
    a.to_owned() == b.to_owned()
}

/// The value of the first attribute of `element` called `name`.
pub fn attribute_value<'a>(element: &'a Element, name: &str) -> (r: Option<&'a str>)
    ensures
        opt_str_view(r) == element@.attribute(name@),
{
    let attrs = element.attributes();
    let ghost vs = element@.attributes;
    let n = attrs.len();
    let mut i: usize = 0;
    while i < n
        invariant
            attribute_views(attrs@) == vs,
            vs == element@.attributes,
            n == attrs@.len(),
            i <= n,
            forall|j: int| 0 <= j < i ==> #[trigger] vs[j].name != name@,
        decreases n - i,
    {
        let a = &attrs[i];
        assert(vs[i as int] == a@);
        if text_eq(a.name(), name) {
            proof {
                lemma_first_attribute_at(vs, name@, i as int);
            }
            return Some(a.value());
        }
        i = i + 1;
    }
    proof {
        lemma_first_attribute_none(vs, name@);
    }
    None
}

/// The attribute called `name` parsed as an `i32`.
pub fn attribute_i32(element: &Element, name: &str) -> (r: Option<i32>)
    ensures
        r == attr_number(element@, name@),
{
    match attribute_value(element, name) {
        Some(v) => parse_i32(v),
        None => None,
    }
}

/// Whether the attribute called `name` is `true`.
pub fn true_attribute(element: &Element, name: &str) -> (r: bool)
    ensures
        r == attr_is_true(element@, name@),
{
    match attribute_value(element, name) {
        Some(v) => text_eq(v, "true"),
        None => false,
    }
}

/// The action a control reports: `on_click`, else `on_toggle`.
pub fn action_attribute(element: &Element) -> (r: Option<&str>)
    ensures
        opt_str_view(r) == action_of(element@),
{
    match attribute_value(element, "on_click") {
        Some(a) => Some(a),
        None => attribute_value(element, "on_toggle"),
    }
}

/// The height of a control, with `default_height` when none is given.
pub fn control_height(element: &Element, default_height: i32) -> (r: i32)
    ensures
        r == control_height_of(element@, default_height),
{
    let h = match attribute_i32(element, "height") {
        Some(v) => v,
        None => default_height,
    };
    if h >= 1 {
        h
    } else {
        1
    }
}

/// The gap between the children of a container.
pub fn gap(element: &Element) -> (r: i32)
    ensures
        r == gap_of(element@),
{
    let g = match attribute_i32(element, "gap") {
        Some(v) => v,
        None => COLUMN_GAP,
    };
    if g >= 0 {
        g
    } else {
        0
    }
}

/// The height of a spacer.
pub fn spacer_height(element: &Element) -> (r: i32)
    ensures
        r == spacer_height_of(element@),
{
    let h = match attribute_i32(element, "height") {
        Some(v) => v,
        None => COLUMN_GAP,
    };
    if h >= 0 {
        h
    } else {
        0
    }
}

/// The font size an element gets when it sets none.
pub fn default_font_size(element: &Element) -> (r: i32)
    ensures
        r == default_font_size_of(element@),
{
    if text_eq(element.name(), "heading") {
        22
    } else {
        14
    }
}

/// The font weight an element asks for.
pub fn font_weight(element: &Element) -> (r: i32)
    ensures
        r == font_weight_of(element@),
{
    match attribute_value(element, "font_weight") {
        Some(w) => if text_eq(w, "bold") {
            WEIGHT_BOLD
        } else if text_eq(w, "semibold") {
            WEIGHT_SEMIBOLD
        } else {
            WEIGHT_NORMAL
        },
        None => WEIGHT_NORMAL,
    }
}

/// The value of a hexadecimal digit byte, upper or lower case.
pub open spec fn hex_digit_value(b: u8) -> Option<u32> {
    if 48 <= b <= 57 {
        Some((b - 48) as u32)
    } else if 97 <= b <= 102 {
        Some((b - 87) as u32)
    } else if 65 <= b <= 70 {
        Some((b - 55) as u32)
    } else {
        None
    }
}

/// What `u8::from_str_radix(_, 16)` gives for the two-byte text `b0 b1`:
/// two hexadecimal digits, or `+` and one digit.
pub open spec fn radix16_pair(b0: u8, b1: u8) -> Option<u32> {
    if b0 == 43 {
        hex_digit_value(b1)
    } else {
        match (hex_digit_value(b0), hex_digit_value(b1)) {
            (Some(h), Some(l)) => Some((h * 16 + l) as u32),
            _ => None,
        }
    }
}

/// Whether reading `#rrggbb` from the UTF-8 bytes `bs` would slice a string
/// inside a character: after the `#`, the red digits end inside a
/// character, or red parses and the green digits end inside a character.
pub open spec fn colorref_panics(bs: Seq<u8>) -> bool {
    &&& bs.len() == 7
    &&& bs[0] == 35
    &&& (!is_char_boundary(bs, 3) || (radix16_pair(bs[1], bs[2]) is Some && !is_char_boundary(
        bs,
        5,
    )))
}

/// The Windows colour (`0x00bbggrr`) that the text `#rrggbb` given as UTF-8
/// bytes names, or `None` when the text has another form.
pub open spec fn colorref_of(bs: Seq<u8>) -> Option<u32> {
    if bs.len() == 7 && bs[0] == 35 {
        match (radix16_pair(bs[1], bs[2]), radix16_pair(bs[3], bs[4]), radix16_pair(bs[5], bs[6])) {
            (Some(r), Some(g), Some(b)) => Some((r + 256 * g + 65536 * b) as u32),
            _ => None,
        }
    } else {
        None
    }
}

fn hex_digit_byte(b: u8) -> (r: Option<u32>)
    ensures
        r == hex_digit_value(b),
{
    if 48 <= b && b <= 57 {
        Some((b - 48) as u32)
    } else if 97 <= b && b <= 102 {
        Some((b - 87) as u32)
    } else if 65 <= b && b <= 70 {
        Some((b - 55) as u32)
    } else {
        None
    }
}

fn radix16_byte_pair(b0: u8, b1: u8) -> (r: Option<u32>)
    ensures
        r == radix16_pair(b0, b1),
        r matches Some(v) ==> v < 256,
{
    if b0 == 43 {
        hex_digit_byte(b1)
    } else {
        match (hex_digit_byte(b0), hex_digit_byte(b1)) {
            (Some(h), Some(l)) => Some(h * 16 + l),
            _ => None,
        }
    }
}

/// Whether reading a colour from `value` would slice it inside a character.
pub fn colorref_would_panic(value: &str) -> (r: bool)
    ensures
        r == colorref_panics(encode_utf8(value@)),
{
    let bs = value.as_bytes();
    if bs.len() != 7 || bs[0] != 35 {
        return false;
    }
    !value.is_char_boundary(3) || (radix16_byte_pair(bs[1], bs[2]).is_some()
        && !value.is_char_boundary(5))
}

/// Reads a colour written as `#rrggbb` into a Windows colour value.
pub fn colorref_from_hex(value: &str) -> (r: Option<u32>)
    requires
        !colorref_panics(encode_utf8(value@)),
    ensures
        r == colorref_of(encode_utf8(value@)),
{
    let bs = value.as_bytes();
    if bs.len() != 7 || bs[0] != 35 {
        return None;
    }
    let red = match radix16_byte_pair(bs[1], bs[2]) {
        Some(v) => v,
        None => return None,
    };
    let green = match radix16_byte_pair(bs[3], bs[4]) {
        Some(v) => v,
        None => return None,
    };
    let blue = match radix16_byte_pair(bs[5], bs[6]) {
        Some(v) => v,
        None => return None,
    };
    Some(red + 256 * green + 65536 * blue)
}

/// Whether `c` is `0`-`9` or `a`-`f`.
pub open spec fn is_lower_hex_digit(c: char) -> bool {
    ('0' <= c && c <= '9') || ('a' <= c && c <= 'f')
}

proof fn lemma_hex_digit_byte(d: int)
    requires
        0 <= d < 16,
    ensures
        hex_digit_value(hex_digit(d) as u8) == Some(d as u32),
        hex_digit(d) as u8 != 43,
        '\0' <= hex_digit(d) <= '\u{7f}',
        is_lower_hex_digit(hex_digit(d)),
{
    if d < 10 {
        assert(hex_digit(d) as u8 == 48 + d);
    } else {
        assert(hex_digit(d) as u8 == 87 + d);
    }
}

proof fn lemma_hex_pair(b: u8)
    ensures
        radix16_pair(hex_digit(b as int / 16) as u8, hex_digit(b as int % 16) as u8) == Some(
            b as u32,
        ),
{
    lemma_hex_digit_byte(b as int / 16);
    lemma_hex_digit_byte(b as int % 16);
}

/// A colour written as `#rrggbb` by [`crate::style::Color::to_hex`] reads back
/// as the Windows colour with the same red, green and blue.
pub proof fn law_color_round_trip(c: (u8, u8, u8))
    ensures
        !colorref_panics(encode_utf8(color_hex(c))),
        colorref_of(encode_utf8(color_hex(c))) == Some(
            (c.0 as int + 256 * c.1 as int + 65536 * c.2 as int) as u32,
        ),
{
    let s = color_hex(c);
    assert(s.len() == 7);
    assert(s[1] == hex_digit(c.0 as int / 16));
    assert(s[2] == hex_digit(c.0 as int % 16));
    assert(s[3] == hex_digit(c.1 as int / 16));
    assert(s[4] == hex_digit(c.1 as int % 16));
    assert(s[5] == hex_digit(c.2 as int / 16));
    assert(s[6] == hex_digit(c.2 as int % 16));
    lemma_hex_digit_byte(c.0 as int / 16);
    lemma_hex_digit_byte(c.0 as int % 16);
    lemma_hex_digit_byte(c.1 as int / 16);
    lemma_hex_digit_byte(c.1 as int % 16);
    lemma_hex_digit_byte(c.2 as int / 16);
    lemma_hex_digit_byte(c.2 as int % 16);
    assert(is_ascii_chars(s));
    is_ascii_chars_encode_utf8(s);
    let bs = encode_utf8(s);
    assert(bs[0] == 35);
    assert(bs[3] == s[3] as u8);
    assert(bs[5] == s[5] as u8);
    lemma_hex_pair(c.0);
    lemma_hex_pair(c.1);
    lemma_hex_pair(c.2);
    encode_utf8_valid_utf8(s);
    is_char_boundary_iff_not_is_continuation_byte(bs, 3);
    is_char_boundary_iff_not_is_continuation_byte(bs, 5);
}

/// A colour's `#rrggbb` text is seven characters: `#` and six lowercase
/// hexadecimal digits, one byte each. Each two-digit pair reads, as
/// `u8::from_str_radix(_, 16)` reads it, as its own byte: red, green, blue.
pub proof fn law_color_hex_pairs(c: (u8, u8, u8))
    ensures
        ({
            let s = color_hex(c);
            let bs = encode_utf8(s);
            &&& s.len() == 7
            &&& s[0] == '#'
            &&& forall|i: int| 1 <= i < 7 ==> is_lower_hex_digit(#[trigger] s[i])
            &&& bs.len() == 7
            &&& forall|i: int| 0 <= i < 7 ==> #[trigger] bs[i] == s[i] as u8
            &&& radix16_pair(bs[1], bs[2]) == Some(c.0 as u32)
            &&& radix16_pair(bs[3], bs[4]) == Some(c.1 as u32)
            &&& radix16_pair(bs[5], bs[6]) == Some(c.2 as u32)
        }),
{
    let s = color_hex(c);
    assert(s[1] == hex_digit(c.0 as int / 16));
    assert(s[2] == hex_digit(c.0 as int % 16));
    assert(s[3] == hex_digit(c.1 as int / 16));
    assert(s[4] == hex_digit(c.1 as int % 16));
    assert(s[5] == hex_digit(c.2 as int / 16));
    assert(s[6] == hex_digit(c.2 as int % 16));
    lemma_hex_digit_byte(c.0 as int / 16);
    lemma_hex_digit_byte(c.0 as int % 16);
    lemma_hex_digit_byte(c.1 as int / 16);
    lemma_hex_digit_byte(c.1 as int % 16);
    lemma_hex_digit_byte(c.2 as int / 16);
    lemma_hex_digit_byte(c.2 as int % 16);
    assert forall|i: int| 1 <= i < 7 implies is_lower_hex_digit(#[trigger] s[i]) by {
        assert(i == 1 || i == 2 || i == 3 || i == 4 || i == 5 || i == 6);
    }
    assert(is_ascii_chars(s));
    is_ascii_chars_encode_utf8(s);
    lemma_hex_pair(c.0);
    lemma_hex_pair(c.1);
    lemma_hex_pair(c.2);
}

/// Two colours have the same `#rrggbb` text exactly when they are the same
/// colour.
pub proof fn law_color_hex_injective(a: (u8, u8, u8), b: (u8, u8, u8))
    ensures
        color_hex(a) == color_hex(b) <==> a == b,
{
    if color_hex(a) == color_hex(b) {
        law_color_hex_pairs(a);
        law_color_hex_pairs(b);
        assert(a.0 == b.0 && a.1 == b.1 && a.2 == b.2);
    }
}

/// A hexadecimal digit in upper case: `a`-`f` become `A`-`F`; every other
/// character stays.
pub open spec fn upper_hex(c: char) -> char {
    if 'a' <= c && c <= 'f' {
        ((c as int) - 32) as char
    } else {
        c
    }
}

/// Each digit byte reads as its value: `0`-`9` as 0 to 9, and both `a`-`f`
/// and `A`-`F` as 10 to 15.
pub proof fn law_hex_digit_values(d: int)
    requires
        0 <= d < 16,
    ensures
        d < 10 ==> hex_digit_value((48 + d) as u8) == Some(d as u32),
        d >= 10 ==> hex_digit_value((87 + d) as u8) == Some(d as u32),
        d >= 10 ==> hex_digit_value((55 + d) as u8) == Some(d as u32),
{
}

proof fn lemma_upper_hex_digit(d: int)
    requires
        0 <= d < 16,
    ensures
        hex_digit_value(upper_hex(hex_digit(d)) as u8) == Some(d as u32),
        upper_hex(hex_digit(d)) as u8 != 43,
        '\0' <= upper_hex(hex_digit(d)) <= '\u{7f}',
{
    if d < 10 {
        assert(hex_digit(d) as u8 == 48 + d);
        assert(upper_hex(hex_digit(d)) == hex_digit(d));
    } else {
        assert(hex_digit(d) as int == 87 + d);
        assert(upper_hex(hex_digit(d)) as int == 55 + d);
        assert(upper_hex(hex_digit(d)) as u8 == 55 + d);
    }
}

/// A colour's `#RRGGBB` text in upper case reads as the same Windows colour
/// as its lowercase text: case does not matter to the reader.
pub proof fn law_color_upper_round_trip(c: (u8, u8, u8))
    ensures
        ({
            let s = color_hex(c).map_values(|ch: char| upper_hex(ch));
            &&& !colorref_panics(encode_utf8(s))
            &&& colorref_of(encode_utf8(s)) == Some(
                (c.0 as int + 256 * c.1 as int + 65536 * c.2 as int) as u32,
            )
        }),
{
    let h = color_hex(c);
    let s = h.map_values(|ch: char| upper_hex(ch));
    assert(s.len() == 7);
    assert(s[0] == '#');
    assert(s[1] == upper_hex(hex_digit(c.0 as int / 16)));
    assert(s[2] == upper_hex(hex_digit(c.0 as int % 16)));
    assert(s[3] == upper_hex(hex_digit(c.1 as int / 16)));
    assert(s[4] == upper_hex(hex_digit(c.1 as int % 16)));
    assert(s[5] == upper_hex(hex_digit(c.2 as int / 16)));
    assert(s[6] == upper_hex(hex_digit(c.2 as int % 16)));
    lemma_upper_hex_digit(c.0 as int / 16);
    lemma_upper_hex_digit(c.0 as int % 16);
    lemma_upper_hex_digit(c.1 as int / 16);
    lemma_upper_hex_digit(c.1 as int % 16);
    lemma_upper_hex_digit(c.2 as int / 16);
    lemma_upper_hex_digit(c.2 as int % 16);
    assert forall|i: int| 0 <= i < s.len() implies '\0' <= #[trigger] s[i] <= '\u{7f}' by {
        assert(i == 0 || i == 1 || i == 2 || i == 3 || i == 4 || i == 5 || i == 6);
    }
    assert(is_ascii_chars(s));
    is_ascii_chars_encode_utf8(s);
    let bs = encode_utf8(s);
    assert(bs[0] == 35);
    assert(bs[3] == s[3] as u8);
    assert(bs[5] == s[5] as u8);
    assert(radix16_pair(bs[1], bs[2]) == Some(c.0 as u32)) by {
        assert(c.0 as int == 16 * (c.0 as int / 16) + c.0 as int % 16);
    }
    assert(radix16_pair(bs[3], bs[4]) == Some(c.1 as u32)) by {
        assert(c.1 as int == 16 * (c.1 as int / 16) + c.1 as int % 16);
    }
    assert(radix16_pair(bs[5], bs[6]) == Some(c.2 as u32)) by {
        assert(c.2 as int == 16 * (c.2 as int / 16) + c.2 as int % 16);
    }
    encode_utf8_valid_utf8(s);
    is_char_boundary_iff_not_is_continuation_byte(bs, 3);
    is_char_boundary_iff_not_is_continuation_byte(bs, 5);
}

} // verus!
