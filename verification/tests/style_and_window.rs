use vela_ui::attrs::{attribute_i32, attribute_value, colorref_from_hex};
use vela_ui::element::Element;
use vela_ui::error::Error;
use vela_ui::style::{Align, Color, FontWeight, Style};
use vela_ui::widgets::Text;
use vela_ui::window::Window;

#[test]
fn color_to_hex_is_lowercase_two_digits() {
    assert_eq!(Color::rgb(31, 41, 55).to_hex(), "#1f2937");
    assert_eq!(Color::rgb(0, 10, 255).to_hex(), "#000aff");
    assert_eq!(Color::rgb(255, 255, 255).to_hex(), "#ffffff");
}

#[test]
fn align_and_weight_names() {
    assert_eq!(Align::Start.as_str(), "start");
    assert_eq!(Align::Center.as_str(), "center");
    assert_eq!(Align::End.as_str(), "end");
    assert_eq!(Align::Stretch.as_str(), "stretch");
    assert_eq!(FontWeight::Normal.as_str(), "normal");
    assert_eq!(FontWeight::Semibold.as_str(), "semibold");
    assert_eq!(FontWeight::Bold.as_str(), "bold");
}

#[test]
fn empty_style_leaves_element_unchanged() {
    let element = Style::new().apply_to(Element::new("text").with_attribute("k", "v"));
    assert_eq!(element.to_string(), "<text k=\"v\" />");
}

#[test]
fn style_writes_attributes_in_fixed_order() {
    let style = Style::new()
        .background(Color::rgb(255, 255, 255))
        .color(Color::rgb(31, 41, 55))
        .font_weight(FontWeight::Semibold)
        .font_size(24)
        .align(Align::Center)
        .gap(9)
        .height(34)
        .max_width(380)
        .min_width(-5)
        .width(120);
    let element = style.apply_to(Element::new("form"));
    assert_eq!(
        element.to_string(),
        "<form width=\"120\" min_width=\"-5\" max_width=\"380\" height=\"34\" gap=\"9\" align=\"center\" font_size=\"24\" font_weight=\"semibold\" color=\"#1f2937\" background=\"#ffffff\" />"
    );
}

#[test]
fn style_overwrites_existing_attributes() {
    let element = Element::new("input").with_attribute("height", "10").with_attribute("name", "n");
    let element = Style::new().height(34).apply_to(element);
    assert_eq!(element.to_string(), "<input height=\"34\" name=\"n\" />");
}

#[test]
fn style_setter_replaces_earlier_value() {
    let element = Style::new().gap(1).gap(2).apply_to(Element::new("column"));
    assert_eq!(element.to_string(), "<column gap=\"2\" />");
}

#[test]
fn style_reaches_backend() {
    let element = Style::new()
        .width(-2147483648)
        .height(2147483647)
        .color(Color::rgb(1, 2, 3))
        .apply_to(Element::new("input"));
    assert_eq!(attribute_i32(&element, "width"), Some(-2147483648));
    assert_eq!(attribute_i32(&element, "height"), Some(2147483647));
    let color = attribute_value(&element, "color").unwrap();
    assert_eq!(colorref_from_hex(color), Some(0x030201));
}

#[test]
fn window_defaults_to_800_by_600() {
    let window = Window::new("Title", Text::new("x"));
    assert_eq!(window.title(), "Title");
    assert_eq!(window.width(), 800);
    assert_eq!(window.height(), 600);
    assert_eq!(window.root().to_string(), "<text>x</text>");
}

#[test]
fn window_into_parts() {
    let (title, width, height, root) = Window::new("T", Text::new("y")).size(1, 2).into_parts();
    assert_eq!(title, "T");
    assert_eq!(width, 1);
    assert_eq!(height, 2);
    assert_eq!(root.text_content(), Some("y"));
}

#[test]
fn window_size_takes_any_values() {
    let window = Window::new("T", Text::new("y")).size(-3, 0).size(7, 9);
    assert_eq!(window.width(), 7);
    assert_eq!(window.height(), 9);
}

#[test]
fn errors_compare() {
    let error = Error::WindowsApi { operation: "GetMessageW", code: 5 };
    assert_eq!(error.clone(), error);
    assert_ne!(error, Error::PlatformUnsupported);
}

#[test]
fn colour_round_trip() {
    for (r, g, b) in [(0, 0, 0), (255, 255, 255), (31, 41, 55), (1, 128, 254), (16, 15, 160)] {
        let text = Color::rgb(r, g, b).to_hex();
        let expected = r as u32 | (g as u32) << 8 | (b as u32) << 16;
        assert_eq!(colorref_from_hex(&text), Some(expected), "{text}");
    }
}

#[test]
fn default_style_is_empty() {
    assert_eq!(Style::default(), Style::new());
    assert_ne!(Style::new().gap(1), Style::new());
}

#[test]
fn cloned_style_sets_the_same_properties() {
    let style = Style::new().width(120).align(Align::End).color(Color::rgb(1, 2, 3));
    let copy = style.clone();
    assert_eq!(copy, style);
    assert_eq!(
        copy.apply_to(Element::new("text")),
        style.apply_to(Element::new("text"))
    );
}

#[test]
fn style_writes_exact_text_and_keeps_other_attributes() {
    let element = Element::new("text")
        .with_attribute("id", "x")
        .with_attribute("width", "7")
        .with_attribute("role", "y")
        .with_text("hi");
    let style = Style::new()
        .width(120)
        .gap(-3)
        .align(Align::Center)
        .font_weight(FontWeight::Bold)
        .background(Color::rgb(0x12, 0xab, 0xff));
    let r = style.apply_to(element.clone());
    assert_eq!(attribute_value(&r, "width"), Some("120"));
    assert_eq!(attribute_value(&r, "gap"), Some("-3"));
    assert_eq!(attribute_value(&r, "align"), Some("center"));
    assert_eq!(attribute_value(&r, "font_weight"), Some("bold"));
    assert_eq!(attribute_value(&r, "background"), Some("#12abff"));
    assert_eq!(attribute_value(&r, "color"), None);
    assert_eq!(r.name(), element.name());
    assert_eq!(r.text_content(), element.text_content());
    let names: Vec<&str> = r.attributes().iter().map(|a| a.name()).collect();
    assert_eq!(names, vec!["id", "width", "role", "gap", "align", "font_weight", "background"]);
    assert_eq!(r.attributes()[0], element.attributes()[0]);
    assert_eq!(r.attributes()[2], element.attributes()[2]);
    assert_eq!(style.apply_to(r.clone()), r);
}

#[test]
fn hex_pairs_read_back_as_bytes() {
    let hex = Color::rgb(0x12, 0xab, 0xff).to_hex();
    assert_eq!(hex, "#12abff");
    assert_eq!(u8::from_str_radix(&hex[1..3], 16), Ok(0x12));
    assert_eq!(u8::from_str_radix(&hex[3..5], 16), Ok(0xab));
    assert_eq!(u8::from_str_radix(&hex[5..7], 16), Ok(0xff));
    assert_ne!(Color::rgb(1, 2, 3).to_hex(), Color::rgb(1, 2, 4).to_hex());
    assert_eq!(Color::rgb(0, 0, 0).to_hex(), "#000000");
}
