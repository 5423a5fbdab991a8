//! Properties that relate the parts of the library: styling and the
//! backend's reading of attributes, rendering and relayout, and click handling.
use vstd::prelude::*;

use crate::attrs::{attr_number, colorref_of, gap_of, law_color_round_trip};
use vstd::utf8::encode_utf8;
use crate::digits::law_decimal_round_trip;
use crate::element::ElementView;
use crate::layout::{
    bound_action, bounds_of, clicked_control_of, color_attr, color_attr_panics, column_steps,
    content_width_of, render_spec, role_of, window_render_spec, ActionBindingView,
    ControlKind, ControlPlanView, FontChoice, Rendered, Role, FIRST_CONTROL_ID, ROOT_MARGIN,
};
use crate::relayout::{
    layout_column_spec, layout_spec, layout_steps, window_layout_spec, Placement,
};
use crate::style::{align_name, font_weight_name, styled, StyleView};
use crate::style_laws::law_style_attribute_text;

verus! {

/// The Windows colour value (`0x00bbggrr`) of an RGB triple.
pub open spec fn colorref_value(c: (u8, u8, u8)) -> u32 {
    (c.0 as int + 256 * c.1 as int + 65536 * c.2 as int) as u32
}

/// Whether `e` takes the whole width it is given, at the left edge: no
/// `width`, `min_width` or `max_width` that reads as a number, and no
/// `center` or `end` alignment.
pub open spec fn fills_given_width(e: ElementView) -> bool {
    &&& attr_number(e, "width"@) is None
    &&& attr_number(e, "min_width"@) is None
    &&& attr_number(e, "max_width"@) is None
    &&& e.attribute("align"@) != Some("center"@)
    &&& e.attribute("align"@) != Some("end"@)
}

/// Whether every element of the tree whose name the backend does not know
/// fills the width it is given.
pub open spec fn others_fill_width(e: ElementView) -> bool
    decreases e, 0nat,
{
    (role_of(e.name) is Other ==> fills_given_width(e)) && all_others_fill_width(
        e.children,
        e.children.len(),
    )
}

/// Whether the first `n` elements of `cs` and their subtrees meet
/// [`others_fill_width`].
pub open spec fn all_others_fill_width(cs: Seq<ElementView>, n: nat) -> bool
    decreases cs, n,
{
    if n == 0 || n > cs.len() {
        true
    } else {
        all_others_fill_width(cs, (n - 1) as nat) && others_fill_width(cs[n - 1])
    }
}

/// The rectangles of planned controls.
pub open spec fn placements(cs: Seq<ControlPlanView>) -> Seq<Placement> {
    cs.map_values(
        |c: ControlPlanView| Placement { x: c.x, y: c.y, width: c.width, height: c.height },
    )
}

/// The heights of planned controls.
pub open spec fn plan_heights(cs: Seq<ControlPlanView>) -> Seq<i32> {
    cs.map_values(|c: ControlPlanView| c.height)
}

/// Whether `heights`, from index `next` on, are the heights of `cs`.
pub open spec fn heights_match(heights: Seq<i32>, next: int, cs: Seq<ControlPlanView>) -> bool {
    &&& 0 <= next
    &&& next + cs.len() <= heights.len()
    &&& forall|k: int| 0 <= k < cs.len() ==> heights[next + k] == #[trigger] cs[k].height
}

proof fn lemma_relayout_element(
    e: ElementView,
    x: i32,
    y: i32,
    width: i32,
    id: i32,
    heights: Seq<i32>,
    next: int,
)
    requires
        others_fill_width(e),
        role_of(e.name) is Other ==> width >= 1,
        render_spec(e, x, y, width, id) is Some,
        heights_match(heights, next, render_spec(e, x, y, width, id).unwrap().controls),
    ensures
        layout_spec(e, x, y, width, heights, next) is Some,
        layout_spec(e, x, y, width, heights, next).unwrap().height == render_spec(
            e,
            x,
            y,
            width,
            id,
        ).unwrap().height,
        layout_spec(e, x, y, width, heights, next).unwrap().next == next + render_spec(
            e,
            x,
            y,
            width,
            id,
        ).unwrap().controls.len(),
        layout_spec(e, x, y, width, heights, next).unwrap().moves == placements(
            render_spec(e, x, y, width, id).unwrap().controls,
        ),
    decreases e, 1nat,
{
    let r = render_spec(e, x, y, width, id).unwrap();
    match role_of(e.name) {
        Role::Spacer => {
            assert(placements(r.controls) =~= seq![]);
        },
        Role::Control(kind, dh) => {
            let b = bounds_of(e, x, width).unwrap();
            assert(r.controls.len() == 1);
            assert(heights[next + 0] == r.controls[0].height);
            assert(placements(r.controls) =~= seq![
                Placement { x: b.0, y, width: b.1, height: heights[next] },
            ]);
        },
        Role::Column => {
            let b = bounds_of(e, x, width).unwrap();
            lemma_relayout_column(e.children, e.children.len(), b.0, y, b.1, gap_of(e), id, heights, next);
            assert(layout_spec(e, x, y, width, heights, next) == layout_column_spec(e, b.0, y, b.1, heights, next));
        },
        Role::Other => {
            assert(bounds_of(e, x, width) == Some((x, width)));
            lemma_relayout_column(e.children, e.children.len(), x, y, width, gap_of(e), id, heights, next);
            assert(layout_spec(e, x, y, width, heights, next) == layout_column_spec(e, x, y, width, heights, next));
        },
    }
}

proof fn lemma_relayout_column(
    cs: Seq<ElementView>,
    n: nat,
    x: i32,
    y0: i32,
    width: i32,
    gap: i32,
    id: i32,
    heights: Seq<i32>,
    next: int,
)
    requires
        all_others_fill_width(cs, n),
        width >= 1,
        column_steps(cs, n, x, y0, width, gap, id) is Some,
        heights_match(heights, next, column_steps(cs, n, x, y0, width, gap, id).unwrap().controls),
    ensures
        layout_steps(cs, n, x, y0, width, gap, heights, next) is Some,
        layout_steps(cs, n, x, y0, width, gap, heights, next).unwrap().height == column_steps(
            cs,
            n,
            x,
            y0,
            width,
            gap,
            id,
        ).unwrap().height,
        layout_steps(cs, n, x, y0, width, gap, heights, next).unwrap().next == next
            + column_steps(cs, n, x, y0, width, gap, id).unwrap().controls.len(),
        layout_steps(cs, n, x, y0, width, gap, heights, next).unwrap().moves == placements(
            column_steps(cs, n, x, y0, width, gap, id).unwrap().controls,
        ),
    decreases cs, n,
{
    let st = column_steps(cs, n, x, y0, width, gap, id).unwrap();
    if n == 0 {
        assert(placements(st.controls) =~= seq![]);
    } else {
        let p = column_steps(cs, (n - 1) as nat, x, y0, width, gap, id).unwrap();
        let c = render_spec(cs[n - 1], x, p.height, width, p.next_id).unwrap();
        assert(st.controls == p.controls + c.controls);
        assert(heights_match(heights, next, p.controls)) by {
            assert forall|k: int| 0 <= k < p.controls.len() implies heights[next + k]
                == #[trigger] p.controls[k].height by {
                assert(st.controls[k] == p.controls[k]);
            }
        }
        let mid = next + p.controls.len();
        assert(heights_match(heights, mid, c.controls)) by {
            assert forall|k: int| 0 <= k < c.controls.len() implies heights[mid + k]
                == #[trigger] c.controls[k].height by {
                assert(st.controls[p.controls.len() + k] == c.controls[k]);
            }
        }
        lemma_relayout_column(cs, (n - 1) as nat, x, y0, width, gap, id, heights, next);
        lemma_relayout_element(cs[n - 1], x, p.height, width, p.next_id, heights, mid);
        assert(placements(p.controls) + placements(c.controls) =~= placements(st.controls));
    }
}

/// Laying an element out again where it was rendered, with the heights of
/// the controls it created, gives the height it was rendered with, uses
/// exactly as many heights as it created controls, and moves each control to
/// the rectangle it was created in. This holds for trees whose elements of
/// names the backend does not know fill the width they are given: such an
/// element is placed by its width and align attributes when it is rendered,
/// but not when it is laid out again. For the same reason an element of such
/// a name at the top is given a width of at least 1, which rendering would
/// widen it to.
pub proof fn law_relayout_reproduces_render_element(
    e: ElementView,
    x: i32,
    y: i32,
    width: i32,
    id: i32,
)
    requires
        others_fill_width(e),
        role_of(e.name) is Other ==> width >= 1,
        render_spec(e, x, y, width, id) is Some,
    ensures
        ({
            let r = render_spec(e, x, y, width, id).unwrap();
            let l = layout_spec(e, x, y, width, plan_heights(r.controls), 0);
            &&& l is Some
            &&& l.unwrap().height == r.height
            &&& l.unwrap().next == r.controls.len()
            &&& l.unwrap().moves == placements(r.controls)
        }),
{
    let r = render_spec(e, x, y, width, id).unwrap();
    let hs = plan_heights(r.controls);
    assert(heights_match(hs, 0, r.controls)) by {
        assert forall|k: int| 0 <= k < r.controls.len() implies hs[0 + k]
            == #[trigger] r.controls[k].height by {}
    }
    lemma_relayout_element(e, x, y, width, id, hs, 0);
}

/// Laying a window out again at the width it was rendered at, with the
/// heights of the controls it created, moves every control to the rectangle
/// it was created in. This holds for trees whose elements of names the
/// backend does not know fill the width they are given.
pub proof fn law_relayout_reproduces_render(root: ElementView, left: i32, right: i32)
    requires
        others_fill_width(root),
        window_render_spec(root, left, right) is Some,
    ensures
        window_layout_spec(
            root,
            left,
            right,
            plan_heights(window_render_spec(root, left, right).unwrap().controls),
        ) is Some,
        window_layout_spec(
            root,
            left,
            right,
            plan_heights(window_render_spec(root, left, right).unwrap().controls),
        ).unwrap().moves == placements(window_render_spec(root, left, right).unwrap().controls),
{
    let w = content_width_of(left, right).unwrap();
    law_relayout_reproduces_render_element(root, ROOT_MARGIN, ROOT_MARGIN, w, FIRST_CONTROL_ID);
}

/// Whether the bindings carry the identifiers `first`, `first + 1`, ... in order.
pub open spec fn consecutive_ids(bs: Seq<ActionBindingView>, first: int) -> bool {
    forall|k: int| 0 <= k < bs.len() ==> #[trigger] bs[k].control_id == first + k
}

proof fn lemma_ids_element(e: ElementView, x: i32, y: i32, width: i32, id: i32)
    requires
        render_spec(e, x, y, width, id) is Some,
    ensures
        consecutive_ids(render_spec(e, x, y, width, id).unwrap().actions, id as int),
        render_spec(e, x, y, width, id).unwrap().next_id == id + render_spec(
            e,
            x,
            y,
            width,
            id,
        ).unwrap().actions.len(),
    decreases e, 1nat,
{
    match role_of(e.name) {
        Role::Spacer => {},
        Role::Control(kind, dh) => {},
        _ => {
            let b = bounds_of(e, x, width).unwrap();
            lemma_ids_column(e.children, e.children.len(), b.0, y, b.1, gap_of(e), id);
        },
    }
}

proof fn lemma_ids_column(
    cs: Seq<ElementView>,
    n: nat,
    x: i32,
    y0: i32,
    width: i32,
    gap: i32,
    id: i32,
)
    requires
        column_steps(cs, n, x, y0, width, gap, id) is Some,
    ensures
        consecutive_ids(column_steps(cs, n, x, y0, width, gap, id).unwrap().actions, id as int),
        column_steps(cs, n, x, y0, width, gap, id).unwrap().next_id == id + column_steps(
            cs,
            n,
            x,
            y0,
            width,
            gap,
            id,
        ).unwrap().actions.len(),
    decreases cs, n,
{
    if n > 0 {
        let st = column_steps(cs, n, x, y0, width, gap, id).unwrap();
        let p = column_steps(cs, (n - 1) as nat, x, y0, width, gap, id).unwrap();
        lemma_ids_column(cs, (n - 1) as nat, x, y0, width, gap, id);
        lemma_ids_element(cs[n - 1], x, p.height, width, p.next_id);
        let c = render_spec(cs[n - 1], x, p.height, width, p.next_id).unwrap();
        assert(st.actions == p.actions + c.actions);
        assert forall|k: int| 0 <= k < st.actions.len() implies #[trigger] st.actions[k].control_id
            == id + k by {
            if k < p.actions.len() {
                assert(st.actions[k] == p.actions[k]);
            } else {
                assert(st.actions[k] == c.actions[k - p.actions.len()]);
            }
        }
    }
}

proof fn lemma_bound_action_consecutive(bs: Seq<ActionBindingView>, first: int, k: int)
    requires
        consecutive_ids(bs, first),
        0 <= k < bs.len(),
    ensures
        bound_action(bs, bs[k].control_id) == Some(bs[k].action),
    decreases bs.len(),
{
    if k < bs.len() - 1 {
        let p = bs.drop_last();
        assert(bs.last().control_id == first + bs.len() - 1);
        assert(consecutive_ids(p, first)) by {
            assert forall|j: int| 0 <= j < p.len() implies #[trigger] p[j].control_id == first
                + j by {
                assert(p[j] == bs[j]);
            }
        }
        assert(p[k] == bs[k]);
        lemma_bound_action_consecutive(p, first, k);
    }
}

/// The controls of a window that report actions are numbered consecutively
/// from the first control identifier, and a click on any of them whose
/// identifier fits a command message's 16 bits finds exactly the action
/// bound when the control was created.
pub proof fn law_click_reports_bound_action(root: ElementView, left: i32, right: i32, k: int)
    requires
        window_render_spec(root, left, right) is Some,
        0 <= k < window_render_spec(root, left, right).unwrap().actions.len(),
        window_render_spec(root, left, right).unwrap().actions[k].control_id < 65536,
    ensures
        ({
            let bs = window_render_spec(root, left, right).unwrap().actions;
            &&& bs[k].control_id == FIRST_CONTROL_ID + k
            &&& clicked_control_of(bs[k].control_id as usize) == Some(bs[k].control_id)
            &&& bound_action(bs, bs[k].control_id) == Some(bs[k].action)
        }),
{
    let w = content_width_of(left, right).unwrap();
    let bs = window_render_spec(root, left, right).unwrap().actions;
    lemma_ids_element(root, ROOT_MARGIN, ROOT_MARGIN, w, FIRST_CONTROL_ID);
    lemma_bound_action_consecutive(bs, FIRST_CONTROL_ID as int, k);
}


/// Each property that a style sets is what the backend reads from the
/// styled element: the numbers parse back to the values set, the alignment
/// and weight read as their names, and the colours as the same colours.
pub proof fn law_style_reaches_backend(s: StyleView, e: ElementView)
    ensures
        ({
            let t = styled(s, e);
            &&& s.width is Some ==> attr_number(t, "width"@) == s.width
            &&& s.min_width is Some ==> attr_number(t, "min_width"@) == s.min_width
            &&& s.max_width is Some ==> attr_number(t, "max_width"@) == s.max_width
            &&& s.height is Some ==> attr_number(t, "height"@) == s.height
            &&& s.gap is Some ==> attr_number(t, "gap"@) == s.gap
            &&& s.align is Some ==> t.attribute("align"@) == Some(align_name(s.align->0))
            &&& s.font_size is Some ==> attr_number(t, "font_size"@) == s.font_size
            &&& s.font_weight is Some ==> t.attribute("font_weight"@) == Some(
                font_weight_name(s.font_weight->0),
            )
            &&& s.color is Some ==> !color_attr_panics(t, "color"@) && color_attr(t, "color"@)
                == Some(colorref_value(s.color->0))
            &&& s.background is Some ==> !color_attr_panics(t, "background"@) && color_attr(
                t,
                "background"@,
            ) == Some(colorref_value(s.background->0))
        }),
{
    law_style_attribute_text(s, e);
    if s.width is Some {
        law_decimal_round_trip(s.width->0);
    }
    if s.min_width is Some {
        law_decimal_round_trip(s.min_width->0);
    }
    if s.max_width is Some {
        law_decimal_round_trip(s.max_width->0);
    }
    if s.height is Some {
        law_decimal_round_trip(s.height->0);
    }
    if s.gap is Some {
        law_decimal_round_trip(s.gap->0);
    }
    if s.font_size is Some {
        law_decimal_round_trip(s.font_size->0);
    }
    if s.color is Some {
        law_color_round_trip(s.color->0);
    }
    if s.background is Some {
        law_color_round_trip(s.background->0);
    }
}

/// An element placed in `available` width is at least one unit wide, starts
/// at or right of `x`, and ends within the available width, or within its
/// own width where that is the wider.
pub proof fn law_bounds_inside(e: ElementView, x: i32, available: i32)
    requires
        bounds_of(e, x, available) is Some,
    ensures
        ({
            let b = bounds_of(e, x, available).unwrap();
            &&& b.1 >= 1
            &&& x <= b.0
            &&& b.0 + b.1 <= x + if available > b.1 {
                available as int
            } else {
                b.1 as int
            }
        }),
{
}

/// A placed element's width lies between its `min_width` and `max_width`
/// when both are given, at least 1, and in order.
pub proof fn law_bounds_limits(e: ElementView, x: i32, available: i32, lo: i32, hi: i32)
    requires
        bounds_of(e, x, available) is Some,
        attr_number(e, "min_width"@) == Some(lo),
        attr_number(e, "max_width"@) == Some(hi),
        1 <= lo <= hi,
    ensures
        lo <= bounds_of(e, x, available).unwrap().1 <= hi,
{
}

/// Every rendered element takes a height of at least 0, and every control
/// one of at least 1.
pub proof fn law_rendered_heights(e: ElementView, x: i32, y: i32, width: i32, id: i32)
    requires
        render_spec(e, x, y, width, id) is Some,
    ensures
        render_spec(e, x, y, width, id).unwrap().height >= 0,
        role_of(e.name) is Control ==> render_spec(e, x, y, width, id).unwrap().height >= 1,
{
}

/// The element of a control element's plan: a checkbox or button with an
/// `on_click` (else `on_toggle`) action reports it under the next free
/// identifier, which it takes; every other control has identifier 0 and takes
/// none. A button is the default button exactly when its `default` attribute
/// is `true` or its `variant` is `primary`; no other control is. Every
/// control but a divider gets the font its `font_size` and `font_weight` ask
/// for: none when it sets neither, else the size given (22 for a heading and
/// 14 for the rest when it does not read as a number) and the weight named
/// (700 for `bold`, 600 for `semibold`, else 400).
pub proof fn law_planned_control(e: ElementView, x: i32, y: i32, width: i32, id: i32)
    requires
        role_of(e.name) is Control,
        render_spec(e, x, y, width, id) is Some,
    ensures
        ({
            let kind = role_of(e.name)->0;
            let r = render_spec(e, x, y, width, id).unwrap();
            let c = r.controls[0];
            let act = match e.attribute("on_click"@) {
                Some(a) => Some(a),
                None => e.attribute("on_toggle"@),
            };
            let reports = (kind == ControlKind::Button || kind == ControlKind::Checkbox)
                && act is Some;
            let unstyled = e.attribute("font_size"@) is None && e.attribute("font_weight"@)
                is None;
            &&& r.controls.len() == 1
            &&& c.kind == kind
            &&& c.text == if kind == ControlKind::Divider {
                Seq::<char>::empty()
            } else {
                match e.text {
                    Some(t) => t,
                    None => Seq::<char>::empty(),
                }
            }
            &&& c.x == bounds_of(e, x, width).unwrap().0
            &&& c.width == bounds_of(e, x, width).unwrap().1
            &&& c.y == y
            &&& c.height == r.height
            &&& c.height >= 1
            &&& (attr_number(e, "height"@) is Some && attr_number(e, "height"@)->0 >= 1)
                ==> c.height == attr_number(e, "height"@)->0
            &&& (attr_number(e, "height"@) is Some && attr_number(e, "height"@)->0 < 1)
                ==> c.height == 1
            &&& (attr_number(e, "height"@) is None && role_of(e.name)->1 >= 1) ==> c.height
                == role_of(e.name)->1
            &&& c.read_only == (kind == ControlKind::Input && e.attribute("readonly"@) == Some(
                "true"@,
            ))
            &&& c.disabled == ((kind == ControlKind::Input || kind == ControlKind::Checkbox
                || kind == ControlKind::Button) && e.attribute("disabled"@) == Some("true"@))
            &&& c.checked == (kind == ControlKind::Checkbox && e.attribute("checked"@) == Some(
                "true"@,
            ))
            &&& c.placeholder == if kind == ControlKind::Input {
                e.attribute("placeholder"@)
            } else {
                None
            }
            &&& c.color == match e.attribute("color"@) {
                Some(v) => colorref_of(encode_utf8(v)),
                None => None,
            }
            &&& c.background == match e.attribute("background"@) {
                Some(v) => colorref_of(encode_utf8(v)),
                None => None,
            }
            &&& reports ==> c.control_id == id && r.next_id == id + 1 && r.actions == seq![
                ActionBindingView { control_id: id, action: act->0 },
            ]
            &&& !reports ==> c.control_id == 0 && r.next_id == id && r.actions.len() == 0
            &&& c.default_button == (kind == ControlKind::Button && (e.attribute("default"@)
                == Some("true"@) || e.attribute("variant"@) == Some("primary"@)))
            &&& (kind == ControlKind::Divider || unstyled) ==> c.font is None
            &&& !(kind == ControlKind::Divider || unstyled) ==> c.font == Some(
                FontChoice {
                    size: match attr_number(e, "font_size"@) {
                        Some(v) => v,
                        None => if e.name == "heading"@ {
                            22
                        } else {
                            14
                        },
                    },
                    weight: if e.attribute("font_weight"@) == Some("bold"@) {
                        700
                    } else if e.attribute("font_weight"@) == Some("semibold"@) {
                        600
                    } else {
                        400
                    },
                },
            )
        }),
{
}

/// Whether the controls of `r` carry identifiers that are 0 or in
/// `id..r.next_id`, each action's identifier is carried by a control, and no
/// two controls share a nonzero identifier.
spec fn ids_well_placed(r: Rendered, id: int) -> bool {
    &&& forall|k: int|
        0 <= k < r.controls.len() ==> (#[trigger] r.controls[k]).control_id == 0 || (id
            <= r.controls[k].control_id < r.next_id)
    &&& forall|j: int|
        0 <= j < r.actions.len() ==> has_control_id(r.controls, (#[trigger] r.actions[j]).control_id)
    &&& forall|k1: int, k2: int|
        0 <= k1 < r.controls.len() && 0 <= k2 < r.controls.len() && k1 != k2 && (
        #[trigger] r.controls[k1]).control_id != 0 ==> r.controls[k1].control_id != (
        #[trigger] r.controls[k2]).control_id
}

/// Whether one of `cs` carries the identifier `id`.
pub open spec fn has_control_id(cs: Seq<ControlPlanView>, id: i32) -> bool {
    exists|k: int| 0 <= k < cs.len() && (#[trigger] cs[k]).control_id == id
}

proof fn lemma_ids_placed_element(e: ElementView, x: i32, y: i32, width: i32, id: i32)
    requires
        render_spec(e, x, y, width, id) is Some,
        id >= 1,
    ensures
        ids_well_placed(render_spec(e, x, y, width, id).unwrap(), id as int),
    decreases e, 1nat,
{
    let r = render_spec(e, x, y, width, id).unwrap();
    match role_of(e.name) {
        Role::Spacer => {},
        Role::Control(kind, dh) => {
            assert forall|j: int| 0 <= j < r.actions.len() implies has_control_id(
                r.controls,
                (#[trigger] r.actions[j]).control_id,
            ) by {
                assert(r.controls[0].control_id == r.actions[j].control_id);
            }
        },
        _ => {
            let b = bounds_of(e, x, width).unwrap();
            lemma_ids_placed_column(e.children, e.children.len(), b.0, y, b.1, gap_of(e), id);
            let st = column_steps(e.children, e.children.len(), b.0, y, b.1, gap_of(e), id).unwrap();
            assert(r.controls == st.controls && r.actions == st.actions && r.next_id == st.next_id);
        },
    }
}

proof fn lemma_ids_placed_column(
    cs: Seq<ElementView>,
    n: nat,
    x: i32,
    y0: i32,
    width: i32,
    gap: i32,
    id: i32,
)
    requires
        column_steps(cs, n, x, y0, width, gap, id) is Some,
        id >= 1,
    ensures
        ids_well_placed(column_steps(cs, n, x, y0, width, gap, id).unwrap(), id as int),
    decreases cs, n,
{
    if n > 0 {
        let st = column_steps(cs, n, x, y0, width, gap, id).unwrap();
        let p = column_steps(cs, (n - 1) as nat, x, y0, width, gap, id).unwrap();
        lemma_ids_placed_column(cs, (n - 1) as nat, x, y0, width, gap, id);
        lemma_ids_column(cs, (n - 1) as nat, x, y0, width, gap, id);
        lemma_ids_element(cs[n - 1], x, p.height, width, p.next_id);
        lemma_ids_placed_element(cs[n - 1], x, p.height, width, p.next_id);
        let c = render_spec(cs[n - 1], x, p.height, width, p.next_id).unwrap();
        assert(st.controls == p.controls + c.controls);
        assert(st.actions == p.actions + c.actions);
        let pl = p.controls.len();
        assert(id <= p.next_id <= c.next_id == st.next_id);
        assert forall|k: int| 0 <= k < st.controls.len() implies (
        #[trigger] st.controls[k]).control_id == 0 || (id <= st.controls[k].control_id
            < st.next_id) by {
            if k < pl {
                assert(st.controls[k] == p.controls[k]);
            } else {
                assert(st.controls[k] == c.controls[k - pl]);
            }
        }
        assert forall|j: int| 0 <= j < st.actions.len() implies has_control_id(
            st.controls,
            (#[trigger] st.actions[j]).control_id,
        ) by {
            if j < p.actions.len() {
                assert(st.actions[j] == p.actions[j]);
                assert(has_control_id(p.controls, p.actions[j].control_id));
                let k = choose|k: int|
                    0 <= k < p.controls.len() && (#[trigger] p.controls[k]).control_id
                        == p.actions[j].control_id;
                assert(st.controls[k] == p.controls[k]);
            } else {
                let jj = j - p.actions.len();
                assert(st.actions[j] == c.actions[jj]);
                assert(has_control_id(c.controls, c.actions[jj].control_id));
                let k = choose|k: int|
                    0 <= k < c.controls.len() && (#[trigger] c.controls[k]).control_id
                        == c.actions[jj].control_id;
                assert(st.controls[pl + k] == c.controls[k]);
            }
        }
        assert forall|k1: int, k2: int|
            0 <= k1 < st.controls.len() && 0 <= k2 < st.controls.len() && k1 != k2 && (
            #[trigger] st.controls[k1]).control_id != 0 implies st.controls[k1].control_id != (
            #[trigger] st.controls[k2]).control_id by {
            if k1 < pl {
                assert(st.controls[k1] == p.controls[k1]);
            } else {
                assert(st.controls[k1] == c.controls[k1 - pl]);
            }
            if k2 < pl {
                assert(st.controls[k2] == p.controls[k2]);
            } else {
                assert(st.controls[k2] == c.controls[k2 - pl]);
            }
        }
    }
}

/// In a window's plan, a control has a nonzero identifier exactly when an
/// action is bound to that identifier; every bound action belongs to a
/// control; and no two controls, and no two actions, share an identifier
/// other than 0.
pub proof fn law_control_ids_match_actions(root: ElementView, left: i32, right: i32)
    requires
        window_render_spec(root, left, right) is Some,
    ensures
        ({
            let r = window_render_spec(root, left, right).unwrap();
            &&& forall|k: int|
                0 <= k < r.controls.len() && (#[trigger] r.controls[k]).control_id != 0
                    ==> exists|j: int|
                    0 <= j < r.actions.len() && (#[trigger] r.actions[j]).control_id
                        == r.controls[k].control_id
            &&& forall|j: int|
                0 <= j < r.actions.len() ==> has_control_id(
                    r.controls,
                    (#[trigger] r.actions[j]).control_id,
                )
            &&& forall|k1: int, k2: int|
                0 <= k1 < r.controls.len() && 0 <= k2 < r.controls.len() && k1 != k2 && (
                #[trigger] r.controls[k1]).control_id != 0 ==> r.controls[k1].control_id != (
                #[trigger] r.controls[k2]).control_id
            &&& forall|j1: int, j2: int|
                0 <= j1 < r.actions.len() && 0 <= j2 < r.actions.len() && j1 != j2 ==> (
                #[trigger] r.actions[j1]).control_id != (#[trigger] r.actions[j2]).control_id
        }),
{
    let w = content_width_of(left, right).unwrap();
    let r = window_render_spec(root, left, right).unwrap();
    lemma_ids_element(root, ROOT_MARGIN, ROOT_MARGIN, w, FIRST_CONTROL_ID);
    lemma_ids_placed_element(root, ROOT_MARGIN, ROOT_MARGIN, w, FIRST_CONTROL_ID);
    assert(r == render_spec(root, ROOT_MARGIN, ROOT_MARGIN, w, FIRST_CONTROL_ID).unwrap());
    assert(ids_well_placed(r, FIRST_CONTROL_ID as int));
    assert forall|k1: int, k2: int|
        0 <= k1 < r.controls.len() && 0 <= k2 < r.controls.len() && k1 != k2 && (
        #[trigger] r.controls[k1]).control_id != 0 implies r.controls[k1].control_id != (
        #[trigger] r.controls[k2]).control_id by {}
    assert forall|k: int|
        0 <= k < r.controls.len() && (#[trigger] r.controls[k]).control_id != 0 implies exists|
        j: int|
        0 <= j < r.actions.len() && (#[trigger] r.actions[j]).control_id
            == r.controls[k].control_id by {
        let j = r.controls[k].control_id - FIRST_CONTROL_ID;
        assert(r.actions[j].control_id == FIRST_CONTROL_ID + j);
    }
}

proof fn lemma_column_steps_push(
    cs: Seq<ElementView>,
    c: ElementView,
    n: nat,
    x: i32,
    y0: i32,
    width: i32,
    gap: i32,
    id: i32,
)
    requires
        n <= cs.len(),
    ensures
        column_steps(cs.push(c), n, x, y0, width, gap, id) == column_steps(cs, n, x, y0, width, gap, id),
    decreases n,
{
    if n > 0 {
        lemma_column_steps_push(cs, c, (n - 1) as nat, x, y0, width, gap, id);
        assert(cs.push(c)[n - 1] == cs[n - 1]);
    }
}

proof fn lemma_column_steps_height(
    cs: Seq<ElementView>,
    n: nat,
    x: i32,
    y0: i32,
    width: i32,
    gap: i32,
    id: i32,
)
    requires
        gap >= 0,
        column_steps(cs, n, x, y0, width, gap, id) is Some,
    ensures
        column_steps(cs, n, x, y0, width, gap, id).unwrap().height >= y0,
        n > 0 ==> column_steps(cs, n, x, y0, width, gap, id).unwrap().height >= y0 + gap,
    decreases n,
{
    if n > 0 {
        lemma_column_steps_height(cs, (n - 1) as nat, x, y0, width, gap, id);
        let p = column_steps(cs, (n - 1) as nat, x, y0, width, gap, id).unwrap();
        law_rendered_heights(cs[n - 1], x, p.height, width, p.next_id);
    }
}

/// Appending a child to a column that has children places the child's
/// controls after the column's, at the column's left edge and width, one gap
/// below the column's previous height; the child's actions come after the
/// column's and take the next identifiers; and the column grows by the gap
/// and the child's height.
pub proof fn law_column_append(e: ElementView, c: ElementView, x: i32, y: i32, width: i32, id: i32)
    requires
        role_of(e.name) is Column,
        e.children.len() > 0,
        render_spec(e.with_child(c), x, y, width, id) is Some,
    ensures
        render_spec(e, x, y, width, id) is Some,
        ({
            let r1 = render_spec(e, x, y, width, id).unwrap();
            let r2 = render_spec(e.with_child(c), x, y, width, id).unwrap();
            let b = bounds_of(e, x, width).unwrap();
            let g = gap_of(e);
            let rc = render_spec(c, b.0, (y + r1.height + g) as i32, b.1, r1.next_id);
            &&& rc is Some
            &&& r2.controls == r1.controls + rc.unwrap().controls
            &&& r2.actions == r1.actions + rc.unwrap().actions
            &&& r2.next_id == rc.unwrap().next_id
            &&& r2.height == r1.height + g + rc.unwrap().height
        }),
{
    let e2 = e.with_child(c);
    let n = e.children.len();
    let b = bounds_of(e, x, width).unwrap();
    let g = gap_of(e);
    assert(e2.children == e.children.push(c));
    assert(bounds_of(e2, x, width) == bounds_of(e, x, width));
    assert(gap_of(e2) == g);
    lemma_column_steps_push(e.children, c, n, b.0, y, b.1, g, id);
    assert(column_steps(e2.children, n, b.0, y, b.1, g, id) == column_steps(
        e.children,
        n,
        b.0,
        y,
        b.1,
        g,
        id,
    ));
    assert(e2.children[n as int] == c);
    let st1 = column_steps(e.children, n, b.0, y, b.1, g, id).unwrap();
    lemma_column_steps_height(e.children, n, b.0, y, b.1, g, id);
    law_rendered_heights(c, b.0, st1.height, b.1, st1.next_id);
}

} // verus!
