use vela_ui::element::{Attribute, Element};
use vela_ui::widget::Widget;
use vela_ui::widgets::{Button, Column, Text};

#[test]
fn attribute_holds_name_and_value() {
    let attribute = Attribute::new("gap", "9");
    assert_eq!(attribute.name(), "gap");
    assert_eq!(attribute.value(), "9");
}

#[test]
fn new_element_is_bare() {
    let element = Element::new("form");
    assert_eq!(element.name(), "form");
    assert!(element.attributes().is_empty());
    assert!(element.children().is_empty());
    assert_eq!(element.text_content(), None);
}

#[test]
fn text_element_holds_its_text() {
    let element = Element::text("Hi");
    assert_eq!(element.name(), "text");
    assert_eq!(element.text_content(), Some("Hi"));
    assert!(element.attributes().is_empty());
}

#[test]
fn with_attribute_appends_new_names_in_order() {
    let element = Element::new("input")
        .with_attribute("name", "email")
        .with_attribute("placeholder", "you@example.com");
    let attributes = element.attributes();
    assert_eq!(attributes.len(), 2);
    assert_eq!(attributes[0].name(), "name");
    assert_eq!(attributes[0].value(), "email");
    assert_eq!(attributes[1].name(), "placeholder");
    assert_eq!(attributes[1].value(), "you@example.com");
}

#[test]
fn with_attribute_replaces_in_place() {
    let element = Element::new("input")
        .with_attribute("a", "1")
        .with_attribute("b", "2")
        .with_attribute("a", "3");
    let attributes = element.attributes();
    assert_eq!(attributes.len(), 2);
    assert_eq!(attributes[0].name(), "a");
    assert_eq!(attributes[0].value(), "3");
    assert_eq!(attributes[1].value(), "2");
}

#[test]
fn last_write_wins() {
    let twice = Element::new("x").with_attribute("k", "first").with_attribute("k", "second");
    let once = Element::new("x").with_attribute("k", "second");
    assert_eq!(twice.to_string(), once.to_string());
}

#[test]
fn with_child_appends_in_order() {
    let element = Element::new("column")
        .with_child(Element::text("a"))
        .with_child(Element::text("b"));
    assert_eq!(element.children().len(), 2);
    assert_eq!(element.children()[0].text_content(), Some("a"));
    assert_eq!(element.children()[1].text_content(), Some("b"));
}

#[test]
fn with_text_replaces_text() {
    let element = Element::text("old").with_text("new");
    assert_eq!(element.text_content(), Some("new"));
}

#[test]
fn markup_of_bare_element_closes_itself() {
    assert_eq!(Element::new("spacer").to_string(), "<spacer />");
    assert_eq!(
        Element::new("divider").with_attribute("height", "2").to_string(),
        "<divider height=\"2\" />"
    );
}

#[test]
fn markup_nests_children_after_text() {
    let element = Element::new("form")
        .with_attribute("gap", "9")
        .with_text("T")
        .with_child(Element::text("a"))
        .with_child(Element::new("spacer"));
    assert_eq!(
        element.to_string(),
        "<form gap=\"9\">T<text>a</text><spacer /></form>"
    );
}

#[test]
fn duplicate_copies_the_subtree() {
    let element = Element::new("column")
        .with_attribute("gap", "4")
        .with_child(Element::text("a").with_attribute("color", "#000000"));
    let copy = element.duplicate();
    assert_eq!(copy.to_string(), element.to_string());
}

#[test]
fn text_widget_renders_text_element() {
    assert_eq!(Text::new("Hello").render().to_string(), "<text>Hello</text>");
}

#[test]
fn button_without_action_has_no_attribute() {
    let element = Button::new("Ok").render();
    assert_eq!(element.name(), "button");
    assert_eq!(element.text_content(), Some("Ok"));
    assert!(element.attributes().is_empty());
}

#[test]
fn button_action_is_replaced() {
    let element = Button::new("Ok").on_click("a").on_click("b").render();
    assert_eq!(element.to_string(), "<button on_click=\"b\">Ok</button>");
}

#[test]
fn column_renders_children_in_order() {
    let column = Column::new()
        .child(Text::new("1"))
        .child(Column::new().child(Text::new("2")))
        .child(Button::new("3"));
    assert_eq!(
        column.render().to_string(),
        "<column><text>1</text><column><text>2</text></column><button>3</button></column>"
    );
}

#[test]
fn empty_column_closes_itself() {
    assert_eq!(Column::new().render().to_string(), "<column />");
}

#[test]
fn rendering_twice_gives_the_same_tree() {
    let column = Column::new().child(Text::new("x"));
    assert_eq!(column.render().to_string(), column.render().to_string());
}

#[test]
fn clone_copies_the_subtree() {
    let element = Element::new("form").with_child(Element::text("a").with_attribute("x", "1"));
    let copy = element.clone();
    assert_eq!(copy.to_string(), "<form><text x=\"1\">a</text></form>");
}

#[test]
fn default_column_is_empty() {
    assert_eq!(Column::default().render().to_string(), "<column />");
    let column = Column::new().child(Text::new("a"));
    assert_eq!(column.clone().render().to_string(), column.render().to_string());
}
