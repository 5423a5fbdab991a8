use vela_ui::element::Element;
use vela_ui::layout::{
    action_for, clicked_control, content_width, control_paint, font_use, heading_font,
    layout_bounds, plan_layout, plan_window, role, text_font, ActionBinding, ControlKind,
    ControlPaint, FontChoice, FontUse, PaintBackground, Role,
};
use vela_ui::relayout::{relayout, relayout_window};
use vela_ui::style::{Align, Color, FontWeight, Style};
use vela_ui::widget::Widget;
use vela_ui::widgets::{Button, Column, Text};

fn sample_form() -> Element {
    Element::new("form")
        .with_attribute("gap", "9")
        .with_child(Element::new("heading").with_text("Create"))
        .with_child(Element::new("label").with_text("Email"))
        .with_child(
            Element::new("input")
                .with_attribute("name", "email")
                .with_attribute("placeholder", "name@example.com")
                .with_attribute("readonly", "true"),
        )
        .with_child(Element::new("spacer").with_attribute("height", "4"))
        .with_child(
            Element::new("checkbox")
                .with_text("Updates")
                .with_attribute("checked", "true")
                .with_attribute("on_toggle", "toggle"),
        )
        .with_child(Element::new("divider"))
        .with_child(
            Element::new("button")
                .with_text("Go")
                .with_attribute("variant", "primary")
                .with_attribute("disabled", "true")
                .with_attribute("on_click", "go"),
        )
}

#[test]
fn roles_by_name() {
    assert_eq!(role(&Element::new("column")), Role::Column);
    assert_eq!(role(&Element::new("form")), Role::Column);
    assert_eq!(role(&Element::new("spacer")), Role::Spacer);
    assert_eq!(role(&Element::new("text")), Role::Control(ControlKind::Label, 24));
    assert_eq!(role(&Element::new("label")), Role::Control(ControlKind::Label, 24));
    assert_eq!(role(&Element::new("heading")), Role::Control(ControlKind::Heading, 38));
    assert_eq!(role(&Element::new("divider")), Role::Control(ControlKind::Divider, 1));
    assert_eq!(role(&Element::new("input")), Role::Control(ControlKind::Input, 32));
    assert_eq!(role(&Element::new("checkbox")), Role::Control(ControlKind::Checkbox, 28));
    assert_eq!(role(&Element::new("button")), Role::Control(ControlKind::Button, 34));
    assert_eq!(role(&Element::new("row")), Role::Other);
}

#[test]
fn bounds_take_available_width_by_default() {
    assert_eq!(layout_bounds(&Element::new("text"), 24, 400), Some((24, 400)));
    assert_eq!(layout_bounds(&Element::new("text"), 24, -5), Some((24, 1)));
}

#[test]
fn bounds_clamp_and_align() {
    let centered = Style::new().max_width(380).align(Align::Center).apply_to(Element::new("form"));
    assert_eq!(layout_bounds(&centered, 24, 500), Some((84, 380)));
    assert_eq!(layout_bounds(&centered, 24, 300), Some((24, 300)));
    let end = Style::new().width(100).align(Align::End).apply_to(Element::new("button"));
    assert_eq!(layout_bounds(&end, 0, 250), Some((150, 100)));
    let wide = Style::new().width(100).min_width(200).apply_to(Element::new("button"));
    assert_eq!(layout_bounds(&wide, 0, 50), Some((0, 200)));
    let stretch = Style::new().width(10).align(Align::Stretch).apply_to(Element::new("text"));
    assert_eq!(layout_bounds(&stretch, 7, 50), Some((7, 10)));
}

#[test]
fn bounds_fail_where_arithmetic_overflows() {
    let end = Element::new("text").with_attribute("align", "end").with_attribute("width", "1");
    assert_eq!(layout_bounds(&end, i32::MAX, 100), None);
    assert_eq!(layout_bounds(&end, 0, i32::MIN), None);
    assert_eq!(layout_bounds(&end, 5, 100), Some((104, 1)));
}

#[test]
fn text_font_only_when_styled() {
    assert_eq!(text_font(&Element::new("text")), None);
    let sized = Element::new("text").with_attribute("font_size", "18");
    assert_eq!(text_font(&sized), Some(FontChoice { size: 18, weight: 400 }));
    let heading = Element::new("heading").with_attribute("font_weight", "bold");
    assert_eq!(text_font(&heading), Some(FontChoice { size: 22, weight: 700 }));
    let unparsed = Element::new("text").with_attribute("font_size", "big");
    assert_eq!(text_font(&unparsed), Some(FontChoice { size: 14, weight: 400 }));
}

#[test]
fn plans_controls_in_tree_order() {
    let plan = plan_layout(&sample_form(), 24, 24, 400).unwrap();
    let kinds: Vec<ControlKind> = plan.controls.iter().map(|c| c.kind).collect();
    assert_eq!(
        kinds,
        vec![
            ControlKind::Heading,
            ControlKind::Label,
            ControlKind::Input,
            ControlKind::Checkbox,
            ControlKind::Divider,
            ControlKind::Button,
        ]
    );
    let ys: Vec<i32> = plan.controls.iter().map(|c| c.y).collect();
    assert_eq!(ys, vec![24, 71, 104, 158, 195, 205]);
    let heights: Vec<i32> = plan.controls.iter().map(|c| c.height).collect();
    assert_eq!(heights, vec![38, 24, 32, 28, 1, 34]);
    assert!(plan.controls.iter().all(|c| c.x == 24 && c.width == 400));
    assert_eq!(plan.height, 215);
}

#[test]
fn plans_control_details() {
    let plan = plan_layout(&sample_form(), 0, 0, 100).unwrap();
    let heading = &plan.controls[0];
    assert_eq!(heading.text, "Create");
    assert_eq!(heading.font, None);
    let input = &plan.controls[2];
    assert!(input.read_only);
    assert_eq!(input.placeholder.as_deref(), Some("name@example.com"));
    assert_eq!(input.control_id, 0);
    let checkbox = &plan.controls[3];
    assert!(checkbox.checked);
    assert_eq!(checkbox.control_id, 1000);
    let divider = &plan.controls[4];
    assert_eq!(divider.text, "");
    let button = &plan.controls[5];
    assert!(button.default_button);
    assert!(button.disabled);
    assert_eq!(button.control_id, 1001);
    assert_eq!(plan.actions.len(), 2);
    assert_eq!(plan.actions[0].control_id, 1000);
    assert_eq!(plan.actions[0].action, "toggle");
    assert_eq!(plan.actions[1].control_id, 1001);
    assert_eq!(plan.actions[1].action, "go");
}

#[test]
fn plans_colours() {
    let element = Style::new()
        .color(Color::rgb(31, 41, 55))
        .background(Color::rgb(255, 255, 255))
        .font_weight(FontWeight::Bold)
        .apply_to(Element::new("text").with_text("t"));
    let plan = plan_layout(&element, 0, 0, 10).unwrap();
    let control = &plan.controls[0];
    assert_eq!(control.color, Some(0x37291f));
    assert_eq!(control.background, Some(0xffffff));
    assert_eq!(control.font, Some(FontChoice { size: 14, weight: 700 }));
    let bad = Element::new("text").with_attribute("color", "#zz0000");
    assert_eq!(plan_layout(&bad, 0, 0, 10).unwrap().controls[0].color, None);
}

#[test]
fn plan_fails_where_a_colour_slices_a_character() {
    let bad = Element::new("text").with_attribute("background", "#a\u{e9}aaa");
    assert!(plan_layout(&bad, 0, 0, 10).is_none());
}

#[test]
fn plan_fails_where_arithmetic_overflows() {
    let tall = Element::new("column")
        .with_child(Element::new("text").with_attribute("height", "2147483647"))
        .with_child(Element::new("text"));
    assert!(plan_layout(&tall, 0, 0, 10).is_none());
}

#[test]
fn column_height_is_never_negative() {
    let element = Element::new("column").with_attribute("gap", "5");
    let plan = plan_layout(&element, 0, 0, 10).unwrap();
    assert_eq!(plan.height, 0);
    assert!(plan.controls.is_empty());
}

#[test]
fn unknown_names_stack_like_columns() {
    let element = Element::new("row")
        .with_attribute("gap", "0")
        .with_child(Element::new("text"))
        .with_child(Element::new("text"));
    let plan = plan_layout(&element, 0, 0, 10).unwrap();
    let ys: Vec<i32> = plan.controls.iter().map(|c| c.y).collect();
    assert_eq!(ys, vec![0, 24]);
    assert_eq!(plan.height, 48);
}

#[test]
fn relayout_reproduces_render() {
    let root = sample_form();
    let plan = plan_window(&root, 0, 600).unwrap();
    let heights: Vec<i32> = plan.controls.iter().map(|c| c.height).collect();
    let moves = relayout_window(&root, 0, 600, &heights).unwrap();
    assert_eq!(moves.len(), plan.controls.len());
    for (placement, control) in moves.iter().zip(plan.controls.iter()) {
        assert_eq!(
            (placement.x, placement.y, placement.width, placement.height),
            (control.x, control.y, control.width, control.height)
        );
    }
}

#[test]
fn relayout_follows_new_width() {
    let root = Style::new()
        .max_width(200)
        .align(Align::Center)
        .apply_to(Element::new("form").with_child(Element::new("text")));
    let moves = relayout(&root, 0, 0, 400, &[24]).unwrap();
    assert_eq!((moves[0].x, moves[0].width), (100, 200));
    let moves = relayout(&root, 0, 0, 100, &[24]).unwrap();
    assert_eq!((moves[0].x, moves[0].width), (0, 100));
}

#[test]
fn relayout_without_created_controls_moves_nothing() {
    let moves = relayout(&sample_form(), 0, 0, 100, &[]).unwrap();
    assert!(moves.is_empty());
    let moves = relayout(&sample_form(), 0, 0, 100, &[5, 6]).unwrap();
    assert_eq!(moves.len(), 2);
    assert_eq!((moves[0].y, moves[0].height), (0, 5));
    assert_eq!((moves[1].y, moves[1].height), (14, 6));
}

#[test]
fn relayout_skips_bounds_of_unknown_names() {
    let root = Element::new("row")
        .with_attribute("width", "50")
        .with_child(Element::new("text"));
    let plan = plan_layout(&root, 0, 0, 400).unwrap();
    assert_eq!(plan.controls[0].width, 50);
    let moves = relayout(&root, 0, 0, 400, &[24]).unwrap();
    assert_eq!(moves[0].width, 400);
}

#[test]
fn content_width_leaves_margins() {
    assert_eq!(content_width(0, 600), Some(552));
    assert_eq!(content_width(10, 20), Some(1));
    assert_eq!(content_width(i32::MIN, i32::MAX), None);
    assert_eq!(content_width(-2147483600, 0), Some(2147483552));
    assert_eq!(content_width(i32::MIN, 20), None);
}

#[test]
fn window_plan_starts_at_margin() {
    let root = Column::new().child(Text::new("Hello")).child(Button::new("Save").on_click("save"));
    let plan = plan_window(&root.render(), 0, 420).unwrap();
    assert_eq!((plan.controls[0].x, plan.controls[0].y, plan.controls[0].width), (24, 24, 372));
    assert_eq!(plan.controls[1].y, 58);
    assert_eq!(plan.actions[0].control_id, 1000);
}

#[test]
fn clicks_decode_low_word_with_click_notification() {
    assert_eq!(clicked_control(1000), Some(1000));
    assert_eq!(clicked_control((1 << 16) | 1000), None);
    assert_eq!(clicked_control((1 << 32) | 1000), Some(1000));
    assert_eq!(clicked_control(0xffff), Some(0xffff));
}

#[test]
fn click_finds_bound_action() {
    let root = sample_form();
    let plan = plan_window(&root, 0, 300).unwrap();
    for binding in &plan.actions {
        let id = clicked_control(binding.control_id as usize).unwrap();
        assert_eq!(action_for(&plan.actions, id), Some(binding.action.as_str()));
    }
    assert_eq!(action_for(&plan.actions, 0), None);
}

#[test]
fn later_bindings_win() {
    let bindings = vec![
        ActionBinding { control_id: 1, action: String::from("a") },
        ActionBinding { control_id: 2, action: String::from("b") },
        ActionBinding { control_id: 1, action: String::from("c") },
    ];
    assert_eq!(action_for(&bindings, 1), Some("c"));
    assert_eq!(action_for(&bindings, 2), Some("b"));
    assert_eq!(action_for(&bindings, 3), None);
}

#[test]
fn relayout_reproduces_render_under_unknown_names() {
    let root = Element::new("row")
        .with_attribute("gap", "4")
        .with_child(Element::new("text").with_text("a"))
        .with_child(Element::new("button").with_text("b").with_attribute("on_click", "go"));
    let plan = plan_layout(&root, 5, 7, 300).unwrap();
    let heights: Vec<i32> = plan.controls.iter().map(|c| c.height).collect();
    let moves = relayout(&root, 5, 7, 300, &heights).unwrap();
    assert_eq!(moves.len(), 2);
    assert_eq!(moves.len(), plan.controls.len());
    for (placement, control) in moves.iter().zip(plan.controls.iter()) {
        assert_eq!(
            (placement.x, placement.y, placement.width, placement.height),
            (control.x, control.y, control.width, control.height)
        );
    }
}

#[test]
fn relayout_reproduces_render_of_column_in_no_width() {
    let root = Element::new("column")
        .with_child(Element::new("text").with_text("a"))
        .with_child(Element::new("input"));
    let plan = plan_layout(&root, 3, 4, 0).unwrap();
    let heights: Vec<i32> = plan.controls.iter().map(|c| c.height).collect();
    let moves = relayout(&root, 3, 4, 0, &heights).unwrap();
    assert_eq!(moves.len(), plan.controls.len());
    for (placement, control) in moves.iter().zip(plan.controls.iter()) {
        assert_eq!(
            (placement.x, placement.y, placement.width, placement.height),
            (control.x, control.y, control.width, control.height)
        );
    }
}

#[test]
fn headings_fall_back_to_heading_font() {
    assert_eq!(heading_font(), FontChoice { size: 22, weight: 600 });
    let plan = plan_layout(
        &Element::new("column")
            .with_child(Element::new("heading").with_text("Title"))
            .with_child(Element::new("heading").with_attribute("font_size", "30"))
            .with_child(Element::new("text").with_text("body")),
        0,
        0,
        200,
    )
    .unwrap();
    assert_eq!(font_use(&plan.controls[0]), FontUse::Heading);
    assert_eq!(
        font_use(&plan.controls[1]),
        FontUse::Own(FontChoice { size: 30, weight: 400 })
    );
    assert_eq!(font_use(&plan.controls[2]), FontUse::System);
}

#[test]
fn control_paint_follows_colours() {
    let plan = plan_layout(
        &Element::new("column")
            .with_child(Element::new("text"))
            .with_child(Element::new("text").with_attribute("color", "#ff0000"))
            .with_child(Element::new("text").with_attribute("background", "#0000ff"))
            .with_child(
                Element::new("text")
                    .with_attribute("color", "#010203")
                    .with_attribute("background", "#0a0b0c"),
            ),
        0,
        0,
        200,
    )
    .unwrap();
    assert_eq!(control_paint(&plan.controls[0]), None);
    assert_eq!(
        control_paint(&plan.controls[1]),
        Some(ControlPaint { text_color: Some(0x0000ff), background: PaintBackground::Transparent })
    );
    assert_eq!(
        control_paint(&plan.controls[2]),
        Some(ControlPaint { text_color: None, background: PaintBackground::Solid(0xff0000) })
    );
    assert_eq!(
        control_paint(&plan.controls[3]),
        Some(ControlPaint {
            text_color: Some(0x030201),
            background: PaintBackground::Solid(0x0c0b0a)
        })
    );
}
