use vela_ui::widget::Widget;
use vela_ui::widgets::{Button, Column, Text};
use vela_ui::window::Window;

#[test]
fn builds_nested_ui_tree() {
    let app = Column::new()
        .child(Text::new("Hello"))
        .child(Button::new("Save").on_click("save"));

    let element = app.render();

    assert_eq!(element.name(), "column");
    assert_eq!(element.children().len(), 2);
    assert_eq!(element.children()[0].text_content(), Some("Hello"));
    assert_eq!(element.children()[1].attributes()[0].name(), "on_click");
}

#[test]
fn formats_element_tree() {
    let button = Button::new("Save").on_click("save").render();

    assert_eq!(
        button.to_string(),
        "<button on_click=\"save\">Save</button>"
    );
}

#[test]
fn configures_window() {
    let window = Window::new("Demo", Text::new("Hello")).size(320, 240);

    assert_eq!(window.title(), "Demo");
    assert_eq!(window.width(), 320);
    assert_eq!(window.height(), 240);
    assert_eq!(window.root().text_content(), Some("Hello"));
}

#[test]
fn clones_render_the_same() {
    let button = Button::new("Save").on_click("save");
    assert_eq!(button.clone().render(), button.render());
    assert_eq!(button.clone(), button);
    let text = Text::new("hello");
    assert_eq!(text.clone().render(), text.render());
    let column = Column::new().child(Text::new("a")).child(Button::new("b"));
    assert_eq!(column.clone().render(), column.render());
    assert_eq!(column.clone(), column);
    assert_ne!(column.clone(), Column::new());
}
