use vela_ui::attrs::{
    action_attribute, attribute_i32, attribute_value, colorref_from_hex, colorref_would_panic,
    control_height, default_font_size, font_weight, gap, spacer_height, text_eq, true_attribute,
};
use vela_ui::digits::{i32_to_decimal, parse_i32, push_hex_byte, to_wide_null};
use vela_ui::element::Element;

#[test]
fn decimal_text_of_numbers() {
    assert_eq!(i32_to_decimal(0), "0");
    assert_eq!(i32_to_decimal(7), "7");
    assert_eq!(i32_to_decimal(120), "120");
    assert_eq!(i32_to_decimal(-45), "-45");
    assert_eq!(i32_to_decimal(i32::MAX), "2147483647");
    assert_eq!(i32_to_decimal(i32::MIN), "-2147483648");
}

#[test]
fn decimal_round_trip() {
    for n in [0, 1, -1, 9, 10, -10, 99, 1000, 123456789, i32::MAX, i32::MIN, -2147483647] {
        assert_eq!(parse_i32(&i32_to_decimal(n)), Some(n));
    }
}

#[test]
fn parse_accepts_what_from_str_accepts() {
    for text in ["0", "-0", "+0", "42", "+42", "-42", "007", "2147483647", "-2147483648"] {
        assert_eq!(parse_i32(text), text.parse::<i32>().ok(), "{text}");
    }
}

#[test]
fn parse_rejects_what_from_str_rejects() {
    for text in [
        "", "-", "+", "+-1", "--1", " 1", "1 ", "1.0", "12a", "a", "2147483648", "-2147483649",
        "99999999999999999999", "\u{0661}",
    ] {
        assert_eq!(parse_i32(text), None, "{text}");
        assert!(text.parse::<i32>().is_err(), "{text}");
    }
}

#[test]
fn hex_byte_digits() {
    let mut text = String::from("#");
    push_hex_byte(&mut text, 0x0a);
    push_hex_byte(&mut text, 0xf0);
    assert_eq!(text, "#0af0");
}

#[test]
fn wide_text_ends_with_zero() {
    assert_eq!(to_wide_null(""), vec![0]);
    assert_eq!(to_wide_null("Ab"), vec![65, 98, 0]);
    assert_eq!(to_wide_null("é€"), vec![0xe9, 0x20ac, 0]);
    assert_eq!(to_wide_null("😀"), vec![0xd83d, 0xde00, 0]);
    let text = "Vela UI 😀 ∑";
    let mut expected: Vec<u16> = text.encode_utf16().collect();
    expected.push(0);
    assert_eq!(to_wide_null(text), expected);
}

#[test]
fn text_equality() {
    assert!(text_eq("abc", "abc"));
    assert!(!text_eq("abc", "abd"));
    assert!(!text_eq("abc", "ab"));
}

#[test]
fn attribute_value_reads_first_match() {
    let element = Element::new("x").with_attribute("a", "1").with_attribute("b", "2");
    assert_eq!(attribute_value(&element, "a"), Some("1"));
    assert_eq!(attribute_value(&element, "b"), Some("2"));
    assert_eq!(attribute_value(&element, "c"), None);
}

#[test]
fn attribute_numbers() {
    let element = Element::new("x").with_attribute("w", "-12").with_attribute("v", "1x");
    assert_eq!(attribute_i32(&element, "w"), Some(-12));
    assert_eq!(attribute_i32(&element, "v"), None);
    assert_eq!(attribute_i32(&element, "missing"), None);
}

#[test]
fn true_attribute_needs_exact_true() {
    let element = Element::new("x")
        .with_attribute("a", "true")
        .with_attribute("b", "True")
        .with_attribute("c", "1");
    assert!(true_attribute(&element, "a"));
    assert!(!true_attribute(&element, "b"));
    assert!(!true_attribute(&element, "c"));
    assert!(!true_attribute(&element, "d"));
}

#[test]
fn action_prefers_on_click() {
    let toggle = Element::new("checkbox").with_attribute("on_toggle", "t");
    assert_eq!(action_attribute(&toggle), Some("t"));
    let both = toggle.with_attribute("on_click", "c");
    assert_eq!(action_attribute(&both), Some("c"));
    assert_eq!(action_attribute(&Element::new("button")), None);
}

#[test]
fn heights_and_gaps() {
    let plain = Element::new("input");
    assert_eq!(control_height(&plain, 32), 32);
    assert_eq!(control_height(&plain.duplicate().with_attribute("height", "40"), 32), 40);
    assert_eq!(control_height(&plain.duplicate().with_attribute("height", "-4"), 32), 1);
    assert_eq!(control_height(&plain.duplicate().with_attribute("height", "x"), 32), 32);
    assert_eq!(gap(&plain), 10);
    assert_eq!(gap(&plain.duplicate().with_attribute("gap", "3")), 3);
    assert_eq!(gap(&plain.duplicate().with_attribute("gap", "-3")), 0);
    assert_eq!(spacer_height(&Element::new("spacer")), 10);
    assert_eq!(spacer_height(&Element::new("spacer").with_attribute("height", "8")), 8);
    assert_eq!(spacer_height(&Element::new("spacer").with_attribute("height", "-8")), 0);
}

#[test]
fn font_defaults_and_weights() {
    assert_eq!(default_font_size(&Element::new("heading")), 22);
    assert_eq!(default_font_size(&Element::new("text")), 14);
    assert_eq!(font_weight(&Element::new("text")), 400);
    assert_eq!(font_weight(&Element::new("text").with_attribute("font_weight", "bold")), 700);
    assert_eq!(font_weight(&Element::new("text").with_attribute("font_weight", "semibold")), 600);
    assert_eq!(font_weight(&Element::new("text").with_attribute("font_weight", "heavy")), 400);
}

#[test]
fn colorref_reads_hex_colours() {
    assert_eq!(colorref_from_hex("#ff0000"), Some(0x0000ff));
    assert_eq!(colorref_from_hex("#00ff00"), Some(0x00ff00));
    assert_eq!(colorref_from_hex("#0000ff"), Some(0xff0000));
    assert_eq!(colorref_from_hex("#1F2937"), Some(0x37291f));
    assert_eq!(colorref_from_hex("#+f+f+f"), Some(0x0f0f0f));
}

#[test]
fn colorref_rejects_other_forms() {
    for text in ["", "ff0000", "#ff000", "#ff00000", "#gg0000", "#-f0000", "# f0000", "#ff00-1"] {
        assert_eq!(colorref_from_hex(text), None, "{text}");
        assert!(!colorref_would_panic(text), "{text}");
    }
    assert!(!colorref_would_panic("#\u{e9}aaaa"));
    assert_eq!(colorref_from_hex("#\u{e9}aaaa"), None);
}

#[test]
fn colorref_panics_where_slicing_splits_a_character() {
    assert!(colorref_would_panic("#a\u{e9}aaa"));
    assert!(colorref_would_panic("#aaa\u{e9}a"));
    assert!(!colorref_would_panic("#zza\u{e9}a"));
}
