//! Placement of the element tree in a native window: the controls that the
//! window creates for it, the actions its controls report, and where the
//! controls move when the window is resized.
//!
//! Arithmetic follows the `i32` arithmetic of the native backend. Where that
//! arithmetic would leave the range of `i32`, or a colour attribute would be
//! sliced inside a character, the functions here return `None`: these are
//! the inputs on which the backend cannot proceed.
use vstd::prelude::*;
use vstd::utf8::encode_utf8;

use crate::attrs::{
    action_attribute, action_of, attr_is_true, attr_number, attribute_i32, attribute_value,
    colorref_from_hex, colorref_of, colorref_panics, colorref_would_panic, control_height, control_height_of,
    default_font_size, default_font_size_of, font_weight, font_weight_of, gap, gap_of,
    number_or, opt_str_view, spacer_height, spacer_height_of, text_eq, true_attribute,
    WEIGHT_SEMIBOLD,
};
use crate::element::{views_match, Element, ElementView};

verus! {

/// The margin between the window's client area and the root element.
pub const ROOT_MARGIN: i32 = 24;

/// The default height of text and label controls.
pub const TEXT_HEIGHT: i32 = 24;

/// The default height of headings.
pub const HEADING_HEIGHT: i32 = 38;

/// The default height of inputs.
pub const INPUT_HEIGHT: i32 = 32;

/// The default height of buttons.
pub const BUTTON_HEIGHT: i32 = 34;

/// The default height of checkboxes.
pub const CHECKBOX_HEIGHT: i32 = 28;

/// The default height of dividers.
pub const DIVIDER_HEIGHT: i32 = 1;

/// The identifier of the first control that reports an action.
pub const FIRST_CONTROL_ID: i32 = 1000;

/// Whether a mathematical integer is in the range of `i32`.
pub open spec fn fits(v: int) -> bool {
    i32::MIN <= v <= i32::MAX
}

/// The width an element takes out of `available`: its `width` attribute or
/// all that is available, raised to `min_width`, lowered to `max_width`, and
/// at least 1.
pub open spec fn bounded_width(e: ElementView, available: i32) -> i32 {
    let w0 = number_or(attr_number(e, "width"@), available);
    let w1 = match attr_number(e, "min_width"@) {
        Some(m) => if w0 >= m {
            w0
        } else {
            m
        },
        None => w0,
    };
    let w2 = match attr_number(e, "max_width"@) {
        Some(m) => if w1 <= m {
            w1
        } else {
            m
        },
        None => w1,
    };
    if w2 >= 1 {
        w2
    } else {
        1
    }
}

/// The left edge and width of an element placed at `x` in `available`
/// width, aligned by its `align` attribute (`center` or `end`; anything
/// else keeps `x`).
pub open spec fn bounds_of(e: ElementView, x: i32, available: i32) -> Option<(i32, i32)> {
    let w = bounded_width(e, available);
    let slack = available - w;
    let room = if slack > 0 {
        slack
    } else {
        0
    };
    let align = e.attribute("align"@);
    if align == Some("center"@) {
        if fits(slack) && fits(x + room / 2) {
            Some(((x + room / 2) as i32, w))
        } else {
            None
        }
    } else if align == Some("end"@) {
        if fits(slack) && fits(x + room) {
            Some(((x + room) as i32, w))
        } else {
            None
        }
    } else {
        Some((x, w))
    }
}

/// Places an element at `x` inside `width`, by its width and align attributes.
pub fn layout_bounds(element: &Element, x: i32, width: i32) -> (r: Option<(i32, i32)>)
    ensures
        r == bounds_of(element@, x, width),
{
    let available = width;
    let mut w = match attribute_i32(element, "width") {
        Some(v) => v,
        None => available,
    };
    match attribute_i32(element, "min_width") {
        Some(m) => if w < m {
            w = m;
        },
        None => {},
    }
    match attribute_i32(element, "max_width") {
        Some(m) => if w > m {
            w = m;
        },
        None => {},
    }
    if w < 1 {
        w = 1;
    }
    assert(w == bounded_width(element@, available));
    let slack: i64 = available as i64 - w as i64;
    let room: i64 = if slack > 0 {
        slack
    } else {
        0
    };
    let align = attribute_value(element, "align");
    let center = match align {
        Some(a) => text_eq(a, "center"),
        None => false,
    };
    let end = match align {
        Some(a) => text_eq(a, "end"),
        None => false,
    };
    if center {
        let nx: i64 = x as i64 + room / 2;
        if slack < i32::MIN as i64 || slack > i32::MAX as i64 || nx < i32::MIN as i64 || nx
            > i32::MAX as i64 {
            None
        } else {
            Some((nx as i32, w))
        }
    } else if end {
        let nx: i64 = x as i64 + room;
        if slack < i32::MIN as i64 || slack > i32::MAX as i64 || nx < i32::MIN as i64 || nx
            > i32::MAX as i64 {
            None
        } else {
            Some((nx as i32, w))
        }
    } else {
        Some((x, w))
    }
}

/// The kind of native control an element becomes.
#[derive(Clone, Copy, Debug, PartialEq, Eq)]
pub enum ControlKind {
    /// A static text control, for `text` and `label`.
    Label,
    /// A static text control in the heading font.
    Heading,
    /// A bordered static line.
    Divider,
    /// A single-line edit control.
    Input,
    /// An automatic checkbox.
    Checkbox,
    /// A push button.
    Button,
}

/// How the backend treats an element with a given name.
#[derive(Clone, Copy, Debug, PartialEq, Eq)]
pub enum Role {
    /// `column` and `form`: children stacked vertically.
    Column,
    /// `spacer`: empty vertical space.
    Spacer,
    /// A native control of the given kind and default height.
    Control(ControlKind, i32),
    /// Any other name: its children are stacked like a column's.
    Other,
}

/// The role of an element named `name`.
pub open spec fn role_of(name: Seq<char>) -> Role {
    if name == "column"@ || name == "form"@ {
        Role::Column
    } else if name == "text"@ || name == "label"@ {
        Role::Control(ControlKind::Label, TEXT_HEIGHT)
    } else if name == "heading"@ {
        Role::Control(ControlKind::Heading, HEADING_HEIGHT)
    } else if name == "spacer"@ {
        Role::Spacer
    } else if name == "divider"@ {
        Role::Control(ControlKind::Divider, DIVIDER_HEIGHT)
    } else if name == "input"@ {
        Role::Control(ControlKind::Input, INPUT_HEIGHT)
    } else if name == "checkbox"@ {
        Role::Control(ControlKind::Checkbox, CHECKBOX_HEIGHT)
    } else if name == "button"@ {
        Role::Control(ControlKind::Button, BUTTON_HEIGHT)
    } else {
        Role::Other
    }
}

/// The role of an element, by its name.
pub fn role(element: &Element) -> (r: Role)
    ensures
        r == role_of(element@.name),
{
    let n = element.name();
    if text_eq(n, "column") || text_eq(n, "form") {
        Role::Column
    } else if text_eq(n, "text") || text_eq(n, "label") {
        Role::Control(ControlKind::Label, TEXT_HEIGHT)
    } else if text_eq(n, "heading") {
        Role::Control(ControlKind::Heading, HEADING_HEIGHT)
    } else if text_eq(n, "spacer") {
        Role::Spacer
    } else if text_eq(n, "divider") {
        Role::Control(ControlKind::Divider, DIVIDER_HEIGHT)
    } else if text_eq(n, "input") {
        Role::Control(ControlKind::Input, INPUT_HEIGHT)
    } else if text_eq(n, "checkbox") {
        Role::Control(ControlKind::Checkbox, CHECKBOX_HEIGHT)
    } else if text_eq(n, "button") {
        Role::Control(ControlKind::Button, BUTTON_HEIGHT)
    } else {
        Role::Other
    }
}

/// A font to create for a control.
#[derive(Clone, Copy, Debug, PartialEq, Eq)]
pub struct FontChoice {
    pub size: i32,
    pub weight: i32,
}

/// The font an element's text style asks for: none when it sets neither
/// `font_size` nor `font_weight`; else the given size (or the default size
/// when it does not parse) and weight.
pub open spec fn font_of(e: ElementView) -> Option<FontChoice> {
    if e.attribute("font_size"@) is None && e.attribute("font_weight"@) is None {
        None
    } else {
        Some(
            FontChoice {
                size: number_or(attr_number(e, "font_size"@), default_font_size_of(e)),
                weight: font_weight_of(e),
            },
        )
    }
}

/// The font an element's text style asks for.
pub fn text_font(element: &Element) -> (r: Option<FontChoice>)
    ensures
        r == font_of(element@),
{
    if attribute_value(element, "font_size").is_none() && attribute_value(
        element,
        "font_weight",
    ).is_none() {
        return None;
    }
    let size = match attribute_i32(element, "font_size") {
        Some(v) => v,
        None => default_font_size(element),
    };
    Some(FontChoice { size, weight: font_weight(element) })
}

/// The font of headings that set no font of their own: 22 units, semibold.
pub fn heading_font() -> (r: FontChoice)
    ensures
        r == (FontChoice { size: 22, weight: WEIGHT_SEMIBOLD }),
{
    FontChoice { size: 22, weight: WEIGHT_SEMIBOLD }
}

/// Which font a created control is given.
#[derive(Clone, Copy, Debug, PartialEq, Eq)]
pub enum FontUse {
    /// A font created for this control.
    Own(FontChoice),
    /// The window's shared heading font.
    Heading,
    /// The system font the control starts with.
    System,
}

/// The font a control of `kind` that asks for `font` is given: its own when
/// it asks for one, else the heading font for a heading.
pub open spec fn font_use_of(kind: ControlKind, font: Option<FontChoice>) -> FontUse {
    match font {
        Some(f) => FontUse::Own(f),
        None => match kind {
            ControlKind::Heading => FontUse::Heading,
            _ => FontUse::System,
        },
    }
}

/// The font a planned control is given.
pub fn font_use(plan: &ControlPlan) -> (r: FontUse)
    ensures
        r == font_use_of(plan.kind, plan.font),
{
    match plan.font {
        Some(f) => FontUse::Own(f),
        None => match plan.kind {
            ControlKind::Heading => FontUse::Heading,
            _ => FontUse::System,
        },
    }
}

/// How a control's background is painted.
#[derive(Clone, Copy, Debug, PartialEq, Eq)]
pub enum PaintBackground {
    /// Filled with this Windows colour.
    Solid(u32),
    /// Left transparent.
    Transparent,
}

/// How a control with its own colours is painted.
#[derive(Clone, Copy, Debug, PartialEq, Eq)]
pub struct ControlPaint {
    /// The text colour, when one is set.
    pub text_color: Option<u32>,
    pub background: PaintBackground,
}

/// The painting of a control with text colour `color` and background
/// `background`: none when neither is set; else the text colour, and the
/// background filled when it is set and transparent when it is not.
pub open spec fn control_paint_of(color: Option<u32>, background: Option<u32>) -> Option<ControlPaint> {
    if color is None && background is None {
        None
    } else {
        Some(
            ControlPaint {
                text_color: color,
                background: match background {
                    Some(b) => PaintBackground::Solid(b),
                    None => PaintBackground::Transparent,
                },
            },
        )
    }
}

/// How a planned control is painted, when it has colours of its own.
pub fn control_paint(plan: &ControlPlan) -> (r: Option<ControlPaint>)
    ensures
        r == control_paint_of(plan.color, plan.background),
{
    if plan.color.is_none() && plan.background.is_none() {
        return None;
    }
    let background = match plan.background {
        Some(b) => PaintBackground::Solid(b),
        None => PaintBackground::Transparent,
    };
    Some(ControlPaint { text_color: plan.color, background })
}

/// Whether reading the colour attribute `name` would slice inside a character.
pub open spec fn color_attr_panics(e: ElementView, name: Seq<char>) -> bool {
    match e.attribute(name) {
        Some(v) => colorref_panics(encode_utf8(v)),
        None => false,
    }
}

/// The Windows colour of the colour attribute `name`, when it reads as `#rrggbb`.
pub open spec fn color_attr(e: ElementView, name: Seq<char>) -> Option<u32> {
    match e.attribute(name) {
        Some(v) => colorref_of(encode_utf8(v)),
        None => None,
    }
}

/// A native control to create.
pub struct ControlPlan {
    pub kind: ControlKind,
    pub text: String,
    pub x: i32,
    pub y: i32,
    pub width: i32,
    pub height: i32,
    /// The identifier that the control's clicks carry; 0 when it reports no action.
    pub control_id: i32,
    pub read_only: bool,
    pub disabled: bool,
    pub checked: bool,
    pub default_button: bool,
    pub placeholder: Option<String>,
    pub font: Option<FontChoice>,
    pub color: Option<u32>,
    pub background: Option<u32>,
}

/// The mathematical form of a [`ControlPlan`].
pub struct ControlPlanView {
    pub kind: ControlKind,
    pub text: Seq<char>,
    pub x: i32,
    pub y: i32,
    pub width: i32,
    pub height: i32,
    pub control_id: i32,
    pub read_only: bool,
    pub disabled: bool,
    pub checked: bool,
    pub default_button: bool,
    pub placeholder: Option<Seq<char>>,
    pub font: Option<FontChoice>,
    pub color: Option<u32>,
    pub background: Option<u32>,
}

impl View for ControlPlan {
    type V = ControlPlanView;

    open spec fn view(&self) -> ControlPlanView {
        ControlPlanView {
            kind: self.kind,
            text: self.text@,
            x: self.x,
            y: self.y,
            width: self.width,
            height: self.height,
            control_id: self.control_id,
            read_only: self.read_only,
            disabled: self.disabled,
            checked: self.checked,
            default_button: self.default_button,
            placeholder: match self.placeholder {
                Some(p) => Some(p@),
                None => None,
            },
            font: self.font,
            color: self.color,
            background: self.background,
        }
    }
}

/// An action that the control with `control_id` reports when clicked.
pub struct ActionBinding {
    pub control_id: i32,
    pub action: String,
}

/// The mathematical form of an [`ActionBinding`].
pub struct ActionBindingView {
    pub control_id: i32,
    pub action: Seq<char>,
}

impl View for ActionBinding {
    type V = ActionBindingView;

    open spec fn view(&self) -> ActionBindingView {
        ActionBindingView { control_id: self.control_id, action: self.action@ }
    }
}

/// The outcome of rendering an element: its height, the next free control
/// identifier, and the controls and actions it adds, in order.
pub struct Rendered {
    pub height: i32,
    pub next_id: i32,
    pub controls: Seq<ControlPlanView>,
    pub actions: Seq<ActionBindingView>,
}

/// The text of an optional text content, empty when there is none.
pub open spec fn text_or_empty(t: Option<Seq<char>>) -> Seq<char> {
    match t {
        Some(s) => s,
        None => seq![],
    }
}

/// Whether a control of this kind reports an action.
pub open spec fn reports_action(kind: ControlKind) -> bool {
    kind == ControlKind::Checkbox || kind == ControlKind::Button
}

/// The control that element `e` of `kind` becomes at `(x, y)` in `width`,
/// given the identifier it gets.
pub open spec fn control_plan_of(
    e: ElementView,
    kind: ControlKind,
    default_height: i32,
    bx: i32,
    y: i32,
    bw: i32,
    control_id: i32,
) -> ControlPlanView {
    ControlPlanView {
        kind,
        text: if kind == ControlKind::Divider {
            seq![]
        } else {
            text_or_empty(e.text)
        },
        x: bx,
        y,
        width: bw,
        height: control_height_of(e, default_height),
        control_id,
        read_only: kind == ControlKind::Input && attr_is_true(e, "readonly"@),
        disabled: (kind == ControlKind::Input || kind == ControlKind::Checkbox || kind
            == ControlKind::Button) && attr_is_true(e, "disabled"@),
        checked: kind == ControlKind::Checkbox && attr_is_true(e, "checked"@),
        default_button: kind == ControlKind::Button && (attr_is_true(e, "default"@)
            || e.attribute("variant"@) == Some("primary"@)),
        placeholder: if kind == ControlKind::Input {
            e.attribute("placeholder"@)
        } else {
            None
        },
        font: if kind == ControlKind::Divider {
            None
        } else {
            font_of(e)
        },
        color: color_attr(e, "color"@),
        background: color_attr(e, "background"@),
    }
}

/// Rendering one control element.
pub open spec fn control_rendered(
    e: ElementView,
    kind: ControlKind,
    default_height: i32,
    x: i32,
    y: i32,
    width: i32,
    next_id: i32,
) -> Option<Rendered> {
    let takes = reports_action(kind) && action_of(e) is Some;
    match bounds_of(e, x, width) {
        None => None,
        Some(b) => if (takes && next_id == i32::MAX) || color_attr_panics(e, "color"@)
            || color_attr_panics(e, "background"@) {
            None
        } else {
            let id = if takes {
                next_id
            } else {
                0
            };
            Some(
                Rendered {
                    height: control_height_of(e, default_height),
                    next_id: if takes {
                        (next_id + 1) as i32
                    } else {
                        next_id
                    },
                    controls: seq![control_plan_of(e, kind, default_height, b.0, y, b.1, id)],
                    actions: if takes {
                        seq![ActionBindingView { control_id: next_id, action: action_of(e)->0 }]
                    } else {
                        seq![]
                    },
                },
            )
        },
    }
}

/// Rendering an element at `(x, y)` in `width`, with `next_id` the next free
/// control identifier; `None` where the backend cannot proceed.
pub open spec fn render_spec(e: ElementView, x: i32, y: i32, width: i32, next_id: i32) -> Option<
    Rendered,
>
    decreases e, 0nat,
{
    match role_of(e.name) {
        Role::Spacer => Some(
            Rendered { height: spacer_height_of(e), next_id, controls: seq![], actions: seq![] },
        ),
        Role::Control(kind, dh) => control_rendered(e, kind, dh, x, y, width, next_id),
        _ => match bounds_of(e, x, width) {
            None => None,
            Some(b) => {
                let g = gap_of(e);
                match column_steps(e.children, e.children.len(), b.0, y, b.1, g, next_id) {
                    None => None,
                    Some(st) => if fits(st.height - y) && fits(st.height - y - g) {
                        Some(
                            Rendered {
                                height: if st.height - y - g > 0 {
                                    (st.height - y - g) as i32
                                } else {
                                    0
                                },
                                next_id: st.next_id,
                                controls: st.controls,
                                actions: st.actions,
                            },
                        )
                    } else {
                        None
                    },
                }
            },
        },
    }
}

/// Rendering the first `n` children of a column, stacked from `y0` with
/// `gap` between them; `height` of the outcome is the running `y`.
pub open spec fn column_steps(
    cs: Seq<ElementView>,
    n: nat,
    x: i32,
    y0: i32,
    width: i32,
    gap: i32,
    next_id: i32,
) -> Option<Rendered>
    decreases cs, n,
{
    if n == 0 || n > cs.len() {
        if n == 0 {
            Some(Rendered { height: y0, next_id, controls: seq![], actions: seq![] })
        } else {
            None
        }
    } else {
        match column_steps(cs, (n - 1) as nat, x, y0, width, gap, next_id) {
            None => None,
            Some(p) => match render_spec(cs[n - 1], x, p.height, width, p.next_id) {
                None => None,
                Some(c) => if fits(c.height + gap) && fits(p.height + (c.height + gap)) {
                    Some(
                        Rendered {
                            height: (p.height + (c.height + gap)) as i32,
                            next_id: c.next_id,
                            controls: p.controls + c.controls,
                            actions: p.actions + c.actions,
                        },
                    )
                } else {
                    None
                },
            },
        }
    }
}


/// The views of a sequence of control plans.
pub open spec fn control_views(cs: Seq<ControlPlan>) -> Seq<ControlPlanView> {
    cs.map_values(|c: ControlPlan| c@)
}

/// The views of a sequence of action bindings.
pub open spec fn action_views(bs: Seq<ActionBinding>) -> Seq<ActionBindingView> {
    bs.map_values(|b: ActionBinding| b@)
}

/// The controls and actions gathered so far, and the next free identifier.
struct PlanBuilder {
    controls: Vec<ControlPlan>,
    actions: Vec<ActionBinding>,
    next_id: i32,
}

/// Whether `after` is `before` with the outcome `r` added.
spec fn extended_by(before: &PlanBuilder, after: &PlanBuilder, r: Rendered) -> bool {
    &&& after.next_id == r.next_id
    &&& control_views(after.controls@) == control_views(before.controls@) + r.controls
    &&& action_views(after.actions@) == action_views(before.actions@) + r.actions
}

/// The colour attribute `name`: `None` where reading it would slice inside a
/// character, else the colour it names, if any.
fn color_value(element: &Element, name: &str) -> (r: Option<Option<u32>>)
    ensures
        r is None <==> color_attr_panics(element@, name@),
        r matches Some(c) ==> c == color_attr(element@, name@),
{
    match attribute_value(element, name) {
        None => Some(None),
        Some(v) => if colorref_would_panic(v) {
            None
        } else {
            Some(colorref_from_hex(v))
        },
    }
}

fn render_control(
    element: &Element,
    kind: ControlKind,
    default_height: i32,
    x: i32,
    y: i32,
    width: i32,
    b: &mut PlanBuilder,
) -> (r: Option<i32>)
    ensures
        match control_rendered(element@, kind, default_height, x, y, width, old(b).next_id) {
            Some(sp) => r == Some(sp.height) && extended_by(old(b), final(b), sp),
            None => r is None,
        },
{
    let ghost e = element@;
    let (bx, bw) = match layout_bounds(element, x, width) {
        Some(p) => p,
        None => return None,
    };
    let height = control_height(element, default_height);
    let is_input = match kind {
        ControlKind::Input => true,
        _ => false,
    };
    let is_divider = match kind {
        ControlKind::Divider => true,
        _ => false,
    };
    let is_checkbox = match kind {
        ControlKind::Checkbox => true,
        _ => false,
    };
    let is_button = match kind {
        ControlKind::Button => true,
        _ => false,
    };
    let action = if is_checkbox || is_button {
        action_attribute(element)
    } else {
        None
    };
    if action.is_some() && b.next_id == i32::MAX {
        return None;
    }
    let color = match color_value(element, "color") {
        Some(c) => c,
        None => return None,
    };
    let background = match color_value(element, "background") {
        Some(c) => c,
        None => return None,
    };
    let control_id = if action.is_some() {
        b.next_id
    } else {
        0
    };
    let text = if is_divider {
        String::new()
    } else {
        match element.text_content() {
            Some(t) => t.to_owned(),
            None => String::new(),
        }
    };
    let placeholder = if is_input {
        match attribute_value(element, "placeholder") {
            Some(p) => Some(p.to_owned()),
            None => None,
        }
    } else {
        None
    };
    let font = if is_divider {
        None
    } else {
        text_font(element)
    };
    let primary = match attribute_value(element, "variant") {
        Some(v) => text_eq(v, "primary"),
        None => false,
    };
    let plan = ControlPlan {
        kind,
        text,
        x: bx,
        y,
        width: bw,
        height,
        control_id,
        read_only: is_input && true_attribute(element, "readonly"),
        disabled: (is_input || is_checkbox || is_button) && true_attribute(element, "disabled"),
        checked: is_checkbox && true_attribute(element, "checked"),
        default_button: is_button && (true_attribute(element, "default") || primary),
        placeholder,
        font,
        color,
        background,
    };
    assert(plan@ == control_plan_of(e, kind, default_height, bx, y, bw, control_id));
    let ghost old_controls = b.controls@;
    let ghost old_actions = b.actions@;
    b.controls.push(plan);
    assert(control_views(b.controls@) =~= control_views(old_controls) + seq![plan@]);
    match action {
        Some(a) => {
            let binding = ActionBinding { control_id: b.next_id, action: a.to_owned() };
            b.actions.push(binding);
            assert(action_views(b.actions@) =~= action_views(old_actions) + seq![binding@]);
            b.next_id = b.next_id + 1;
        },
        None => {
            assert(action_views(b.actions@) =~= action_views(old_actions) + seq![]);
        },
    }
    Some(height)
}

/// Where a prefix of a column's children fails, so does every longer prefix.
proof fn lemma_column_steps_prefix(
    cs: Seq<ElementView>,
    k: nat,
    n: nat,
    x: i32,
    y0: i32,
    width: i32,
    gap: i32,
    next_id: i32,
)
    requires
        k <= n,
        column_steps(cs, n, x, y0, width, gap, next_id) is Some,
    ensures
        column_steps(cs, k, x, y0, width, gap, next_id) is Some,
    decreases n,
{
    if k < n {
        lemma_column_steps_prefix(cs, k, (n - 1) as nat, x, y0, width, gap, next_id);
    }
}

fn render_node(element: &Element, x: i32, y: i32, width: i32, b: &mut PlanBuilder) -> (r: Option<
    i32,
>)
    ensures
        match render_spec(element@, x, y, width, old(b).next_id) {
            Some(sp) => r == Some(sp.height) && extended_by(old(b), final(b), sp),
            None => r is None,
        },
    decreases element,
{
    let ghost e = element@;
    let ghost id_start = b.next_id;
    let rl = role(element);
    match rl {
        Role::Spacer => {
            assert(action_views(b.actions@) =~= action_views(b.actions@) + seq![]);
            assert(control_views(b.controls@) =~= control_views(b.controls@) + seq![]);
            return Some(spacer_height(element));
        },
        Role::Control(kind, dh) => {
            return render_control(element, kind, dh, x, y, width, b);
        },
        _ => {},
    }
    let (bx, bw) = match layout_bounds(element, x, width) {
        Some(p) => p,
        None => return None,
    };
    let g = gap(element);
    let children = element.children();
    let n = children.len();
    let ghost id0 = b.next_id;
    let ghost base_c = control_views(b.controls@);
    let ghost base_a = action_views(b.actions@);
    let mut cy: i32 = y;
    let mut i: usize = 0;
    assert(base_c + seq![] =~= base_c);
    assert(base_a + seq![] =~= base_a);
    while i < n
        invariant
            e == element@,
            views_match(children@, e.children),
            forall|j: int| 0 <= j < children@.len() ==> decreases_to!(*element => #[trigger] children@[j]),
            id0 == id_start,
            id_start == old(b).next_id,
            rl == Role::Column || rl == Role::Other,
            rl == role_of(e.name),
            bounds_of(e, x, width) == Some((bx, bw)),
            g == gap_of(e),
            n == children@.len(),
            i <= n,
            column_steps(e.children, i as nat, bx, y, bw, g, id0) is Some,
            cy == column_steps(e.children, i as nat, bx, y, bw, g, id0).unwrap().height,
            b.next_id == column_steps(e.children, i as nat, bx, y, bw, g, id0).unwrap().next_id,
            control_views(b.controls@) == base_c + column_steps(
                e.children,
                i as nat,
                bx,
                y,
                bw,
                g,
                id0,
            ).unwrap().controls,
            action_views(b.actions@) == base_a + column_steps(
                e.children,
                i as nat,
                bx,
                y,
                bw,
                g,
                id0,
            ).unwrap().actions,
        decreases n - i,
    {
        let ghost prev = column_steps(e.children, i as nat, bx, y, bw, g, id0).unwrap();
        let ghost before_c = control_views(b.controls@);
        let ghost before_a = action_views(b.actions@);
        let child = &children[i];
        assert(child@ == e.children[i as int]);
        assert(decreases_to!(*element => *child));
        let h = match render_node(child, bx, cy, bw, b) {
            Some(h) => h,
            None => {
                proof {
                    assert(render_spec(e.children[i as int], bx, prev.height, bw, prev.next_id) is None);
                    assert(column_steps(e.children, (i + 1) as nat, bx, y, bw, g, id0) is None);
                    if column_steps(e.children, n as nat, bx, y, bw, g, id0) is Some {
                        lemma_column_steps_prefix(
                            e.children,
                            (i + 1) as nat,
                            n as nat,
                            bx,
                            y,
                            bw,
                            g,
                            id0,
                        );
                    }
                    assert(column_steps(e.children, e.children.len(), bx, y, bw, g, id0) is None);
                    assert(render_spec(e, x, y, width, id_start) is None);
                }
                return None;
            },
        };
        let step: i64 = h as i64 + g as i64;
        let ny: i64 = cy as i64 + step;
        if step < i32::MIN as i64 || step > i32::MAX as i64 || ny < i32::MIN as i64 || ny
            > i32::MAX as i64 {
            proof {
                assert(column_steps(e.children, (i + 1) as nat, bx, y, bw, g, id0) is None);
                if column_steps(e.children, n as nat, bx, y, bw, g, id0) is Some {
                    lemma_column_steps_prefix(
                        e.children,
                        (i + 1) as nat,
                        n as nat,
                        bx,
                        y,
                        bw,
                        g,
                        id0,
                    );
                }
            }
            return None;
        }
        cy = ny as i32;
        proof {
            let c = render_spec(e.children[i as int], bx, prev.height, bw, prev.next_id).unwrap();
            assert(control_views(b.controls@) == before_c + c.controls);
            assert(base_c + prev.controls + c.controls =~= base_c + (prev.controls + c.controls));
            assert(base_a + prev.actions + c.actions =~= base_a + (prev.actions + c.actions));
        }
        i = i + 1;
    }
    assert(e.children.len() == n);
    let total: i64 = cy as i64 - y as i64;
    let rest: i64 = total - g as i64;
    if total < i32::MIN as i64 || total > i32::MAX as i64 || rest < i32::MIN as i64 || rest
        > i32::MAX as i64 {
        return None;
    }
    if rest > 0 {
        Some(rest as i32)
    } else {
        Some(0)
    }
}

/// The controls to create for an element tree and the actions they report.
pub struct RenderPlan {
    pub controls: Vec<ControlPlan>,
    pub actions: Vec<ActionBinding>,
    pub height: i32,
}

/// Plans the controls for `root` placed at `(x, y)` in `width`, numbering
/// the controls that report actions from [`FIRST_CONTROL_ID`].
pub fn plan_layout(root: &Element, x: i32, y: i32, width: i32) -> (r: Option<RenderPlan>)
    ensures
        r is Some <==> render_spec(root@, x, y, width, FIRST_CONTROL_ID) is Some,
        r matches Some(p) ==> {
            let sp = render_spec(root@, x, y, width, FIRST_CONTROL_ID).unwrap();
            &&& control_views(p.controls@) == sp.controls
            &&& action_views(p.actions@) == sp.actions
            &&& p.height == sp.height
        },
{
    let mut b = PlanBuilder { controls: Vec::new(), actions: Vec::new(), next_id: FIRST_CONTROL_ID };
    assert(control_views(b.controls@) =~= seq![]);
    assert(action_views(b.actions@) =~= seq![]);
    match render_node(root, x, y, width, &mut b) {
        Some(h) => {
            proof {
                let sp = render_spec(root@, x, y, width, FIRST_CONTROL_ID).unwrap();
                assert(seq![] + sp.controls =~= sp.controls);
                assert(Seq::<ActionBindingView>::empty() + sp.actions =~= sp.actions);
            }
            Some(RenderPlan { controls: b.controls, actions: b.actions, height: h })
        },
        None => None,
    }
}


/// The width available to the root element in a client area spanning
/// `left..right`: the span less a margin on each side, at least 1.
pub open spec fn content_width_of(left: i32, right: i32) -> Option<i32> {
    let span = right - left;
    let inner = span - 2 * ROOT_MARGIN;
    if fits(span) && fits(inner) {
        Some(
            if inner >= 1 {
                inner as i32
            } else {
                1
            },
        )
    } else {
        None
    }
}

/// The width available to the root element in a client area spanning `left..right`.
pub fn content_width(left: i32, right: i32) -> (r: Option<i32>)
    ensures
        r == content_width_of(left, right),
{
    let span: i64 = right as i64 - left as i64;
    if span < i32::MIN as i64 || span > i32::MAX as i64 {
        return None;
    }
    let inner: i64 = span - 2 * ROOT_MARGIN as i64;
    if inner < i32::MIN as i64 || inner > i32::MAX as i64 {
        return None;
    }
    if inner >= 1 {
        Some(inner as i32)
    } else {
        Some(1)
    }
}

/// Rendering `root` into a window whose client area spans `left..right`:
/// the root sits at the margin and takes the content width.
pub open spec fn window_render_spec(root: ElementView, left: i32, right: i32) -> Option<Rendered> {
    match content_width_of(left, right) {
        Some(w) => render_spec(root, ROOT_MARGIN, ROOT_MARGIN, w, FIRST_CONTROL_ID),
        None => None,
    }
}

/// Plans the controls of a window whose client area spans `left..right`.
pub fn plan_window(root: &Element, left: i32, right: i32) -> (r: Option<RenderPlan>)
    ensures
        r is Some <==> window_render_spec(root@, left, right) is Some,
        r matches Some(p) ==> {
            let sp = window_render_spec(root@, left, right).unwrap();
            &&& control_views(p.controls@) == sp.controls
            &&& action_views(p.actions@) == sp.actions
            &&& p.height == sp.height
        },
{
    match content_width(left, right) {
        Some(w) => plan_layout(root, ROOT_MARGIN, ROOT_MARGIN, w),
        None => None,
    }
}

/// The notification code of a button click.
pub const CLICK_NOTIFICATION: usize = 0;

/// The control a command message reports clicked: the low 16 bits of
/// `wparam` when its next 16 bits are the click notification.
pub open spec fn clicked_control_of(wparam: usize) -> Option<i32> {
    if (wparam / 65536) % 65536 == CLICK_NOTIFICATION {
        Some((wparam % 65536) as i32)
    } else {
        None
    }
}

/// Decodes a command message: the identifier of the clicked control, if it
/// reports a click.
pub fn clicked_control(wparam: usize) -> (r: Option<i32>)
    ensures
        r == clicked_control_of(wparam),
{
    let notification = (wparam / 65536) % 65536;
    if notification == CLICK_NOTIFICATION {
        Some((wparam % 65536) as i32)
    } else {
        None
    }
}

/// The action of the last binding for `control_id`, as a table that each
/// binding overwrites would hold it.
pub open spec fn bound_action(bs: Seq<ActionBindingView>, control_id: i32) -> Option<Seq<char>>
    decreases bs.len(),
{
    if bs.len() == 0 {
        None
    } else if bs.last().control_id == control_id {
        Some(bs.last().action)
    } else {
        bound_action(bs.drop_last(), control_id)
    }
}

/// The action bound to `control_id`.
pub fn action_for(actions: &[ActionBinding], control_id: i32) -> (r: Option<&str>)
    ensures
        opt_str_view(r) == bound_action(action_views(actions@), control_id),
{
    let ghost vs = action_views(actions@);
    let mut i: usize = actions.len();
    assert(vs.take(i as int) =~= vs);
    while i > 0
        invariant
            vs == action_views(actions@),
            i <= actions@.len(),
            bound_action(vs, control_id) == bound_action(vs.take(i as int), control_id),
        decreases i,
    {
        let b = &actions[i - 1];
        proof {
            let t = vs.take(i as int);
            assert(t.last() == b@);
            assert(t.drop_last() =~= vs.take(i - 1));
        }
        if b.control_id == control_id {
            return Some(b.action.as_str());
        }
        i = i - 1;
    }
    assert(vs.take(0) =~= Seq::<ActionBindingView>::empty());
    None
}

} // verus!
