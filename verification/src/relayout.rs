//! Relayout: where the created controls of a window move when its size
//! changes. As in rendering, `None` marks the inputs on which the `i32`
//! arithmetic of the backend would overflow.
use vstd::prelude::*;

use crate::attrs::{gap, gap_of, spacer_height, spacer_height_of};
use crate::element::{views_match, Element, ElementView};
use crate::layout::{
    bounds_of, content_width, content_width_of, fits, layout_bounds, role, role_of, Role,
    ROOT_MARGIN,
};

verus! {

/// Where a control moves on relayout.
#[derive(Clone, Copy, Debug, PartialEq, Eq)]
pub struct Placement {
    pub x: i32,
    pub y: i32,
    pub width: i32,
    pub height: i32,
}

/// The outcome of laying an element out again: its height, the index of the
/// next control, and the moves of its controls, in order.
pub struct Laid {
    pub height: i32,
    pub next: int,
    pub moves: Seq<Placement>,
}

/// Laying an element out again at `(x, y)` in `width`, where the created
/// controls have `heights` and `next` is the index of the next one; `None`
/// where the backend cannot proceed. Controls beyond the created ones take
/// no room.
pub open spec fn layout_spec(
    e: ElementView,
    x: i32,
    y: i32,
    width: i32,
    heights: Seq<i32>,
    next: int,
) -> Option<Laid>
    decreases e, 1nat,
{
    match role_of(e.name) {
        Role::Spacer => Some(Laid { height: spacer_height_of(e), next, moves: seq![] }),
        Role::Control(_, _) => match bounds_of(e, x, width) {
            None => None,
            Some(b) => if 0 <= next < heights.len() {
                Some(
                    Laid {
                        height: heights[next],
                        next: next + 1,
                        moves: seq![Placement { x: b.0, y, width: b.1, height: heights[next] }],
                    },
                )
            } else {
                Some(Laid { height: 0, next, moves: seq![] })
            },
        },
        Role::Column => match bounds_of(e, x, width) {
            None => None,
            Some(b) => layout_column_spec(e, b.0, y, b.1, heights, next),
        },
        Role::Other => layout_column_spec(e, x, y, width, heights, next),
    }
}

/// Laying out the children of `e` as a column at `(x, y)` in `width`.
pub open spec fn layout_column_spec(
    e: ElementView,
    x: i32,
    y: i32,
    width: i32,
    heights: Seq<i32>,
    next: int,
) -> Option<Laid>
    decreases e, 0nat,
{
    let g = gap_of(e);
    match layout_steps(e.children, e.children.len(), x, y, width, g, heights, next) {
        None => None,
        Some(st) => if fits(st.height - y) && fits(st.height - y - g) {
            Some(
                Laid {
                    height: if st.height - y - g > 0 {
                        (st.height - y - g) as i32
                    } else {
                        0
                    },
                    next: st.next,
                    moves: st.moves,
                },
            )
        } else {
            None
        },
    }
}

/// Laying out the first `n` children of a column again, stacked from `y0`;
/// `height` of the outcome is the running `y`.
pub open spec fn layout_steps(
    cs: Seq<ElementView>,
    n: nat,
    x: i32,
    y0: i32,
    width: i32,
    gap: i32,
    heights: Seq<i32>,
    next: int,
) -> Option<Laid>
    decreases cs, n,
{
    if n == 0 || n > cs.len() {
        if n == 0 {
            Some(Laid { height: y0, next, moves: seq![] })
        } else {
            None
        }
    } else {
        match layout_steps(cs, (n - 1) as nat, x, y0, width, gap, heights, next) {
            None => None,
            Some(p) => match layout_spec(cs[n - 1], x, p.height, width, heights, p.next) {
                None => None,
                Some(c) => if fits(c.height + gap) && fits(p.height + (c.height + gap)) {
                    Some(
                        Laid {
                            height: (p.height + (c.height + gap)) as i32,
                            next: c.next,
                            moves: p.moves + c.moves,
                        },
                    )
                } else {
                    None
                },
            },
        }
    }
}

proof fn lemma_layout_steps_prefix(
    cs: Seq<ElementView>,
    k: nat,
    n: nat,
    x: i32,
    y0: i32,
    width: i32,
    gap: i32,
    heights: Seq<i32>,
    next: int,
)
    requires
        k <= n,
        layout_steps(cs, n, x, y0, width, gap, heights, next) is Some,
    ensures
        layout_steps(cs, k, x, y0, width, gap, heights, next) is Some,
    decreases n,
{
    if k < n {
        lemma_layout_steps_prefix(cs, k, (n - 1) as nat, x, y0, width, gap, heights, next);
    }
}

proof fn lemma_layout_next_grows(
    e: ElementView,
    x: i32,
    y: i32,
    width: i32,
    heights: Seq<i32>,
    next: int,
)
    requires
        layout_spec(e, x, y, width, heights, next) is Some,
        0 <= next <= heights.len(),
    ensures
        next <= layout_spec(e, x, y, width, heights, next).unwrap().next <= heights.len(),
    decreases e, 1nat,
{
    match role_of(e.name) {
        Role::Column => {
            let b = bounds_of(e, x, width).unwrap();
            lemma_layout_column_next_grows(e, b.0, y, b.1, heights, next);
        },
        Role::Other => {
            lemma_layout_column_next_grows(e, x, y, width, heights, next);
        },
        _ => {},
    }
}

proof fn lemma_layout_column_next_grows(
    e: ElementView,
    x: i32,
    y: i32,
    width: i32,
    heights: Seq<i32>,
    next: int,
)
    requires
        layout_column_spec(e, x, y, width, heights, next) is Some,
        0 <= next <= heights.len(),
    ensures
        next <= layout_column_spec(e, x, y, width, heights, next).unwrap().next <= heights.len(),
    decreases e, 0nat,
{
    lemma_layout_steps_next_grows(e.children, e.children.len(), x, y, width, gap_of(e), heights, next);
}

proof fn lemma_layout_steps_next_grows(
    cs: Seq<ElementView>,
    n: nat,
    x: i32,
    y0: i32,
    width: i32,
    gap: i32,
    heights: Seq<i32>,
    next: int,
)
    requires
        layout_steps(cs, n, x, y0, width, gap, heights, next) is Some,
        0 <= next <= heights.len(),
    ensures
        next <= layout_steps(cs, n, x, y0, width, gap, heights, next).unwrap().next <= heights.len(),
    decreases cs, n,
{
    if n > 0 {
        lemma_layout_steps_next_grows(cs, (n - 1) as nat, x, y0, width, gap, heights, next);
        let p = layout_steps(cs, (n - 1) as nat, x, y0, width, gap, heights, next).unwrap();
        lemma_layout_next_grows(cs[n - 1], x, p.height, width, heights, p.next);
    }
}

fn layout_node(
    element: &Element,
    x: i32,
    y: i32,
    width: i32,
    heights: &[i32],
    next: usize,
    moves: &mut Vec<Placement>,
) -> (r: Option<(i32, usize)>)
    requires
        next <= heights@.len(),
    ensures
        match layout_spec(element@, x, y, width, heights@, next as int) {
            Some(sp) => r == Some((sp.height, sp.next as usize)) && final(moves)@ == old(moves)@
                + sp.moves,
            None => r is None,
        },
    decreases element,
{
    let ghost e = element@;
    let rl = role(element);
    match rl {
        Role::Spacer => {
            assert(old(moves)@ + seq![] =~= old(moves)@);
            return Some((spacer_height(element), next));
        },
        Role::Control(_, _) => {
            let (bx, bw) = match layout_bounds(element, x, width) {
                Some(p) => p,
                None => return None,
            };
            if next < heights.len() {
                let h = heights[next];
                moves.push(Placement { x: bx, y, width: bw, height: h });
                return Some((h, next + 1));
            } else {
                assert(old(moves)@ + seq![] =~= old(moves)@);
                return Some((0, next));
            }
        },
        _ => {},
    }
    let (cx, cw) = match rl {
        Role::Column => match layout_bounds(element, x, width) {
            Some(p) => p,
            None => return None,
        },
        _ => (x, width),
    };
    assert(layout_spec(e, x, y, width, heights@, next as int) == layout_column_spec(
        e,
        cx,
        y,
        cw,
        heights@,
        next as int,
    ));
    let g = gap(element);
    let children = element.children();
    let n = children.len();
    let ghost base = moves@;
    let hl = heights.len();
    let mut cy: i32 = y;
    let mut k: usize = next;
    let mut i: usize = 0;
    assert(base + seq![] =~= base);
    while i < n
        invariant
            e == element@,
            views_match(children@, e.children),
            forall|j: int| 0 <= j < children@.len() ==> decreases_to!(*element => #[trigger] children@[j]),
            n == children@.len(),
            i <= n,
            g == gap_of(e),
            base == old(moves)@,
            layout_spec(e, x, y, width, heights@, next as int) == layout_column_spec(
                e,
                cx,
                y,
                cw,
                heights@,
                next as int,
            ),
            layout_steps(e.children, i as nat, cx, y, cw, g, heights@, next as int) is Some,
            cy == layout_steps(e.children, i as nat, cx, y, cw, g, heights@, next as int).unwrap().height,
            k as int == layout_steps(e.children, i as nat, cx, y, cw, g, heights@, next as int).unwrap().next,
            moves@ == base + layout_steps(e.children, i as nat, cx, y, cw, g, heights@, next as int).unwrap().moves,
            k <= heights@.len(),
            hl == heights@.len(),
        decreases n - i,
    {
        let ghost prev = layout_steps(e.children, i as nat, cx, y, cw, g, heights@, next as int).unwrap();
        let child = &children[i];
        assert(child@ == e.children[i as int]);
        assert(decreases_to!(*element => *child));
        let (h, k2) = match layout_node(child, cx, cy, cw, heights, k, moves) {
            Some(p) => p,
            None => {
                proof {
                    assert(layout_steps(e.children, (i + 1) as nat, cx, y, cw, g, heights@, next as int) is None);
                    if layout_steps(e.children, n as nat, cx, y, cw, g, heights@, next as int) is Some {
                        lemma_layout_steps_prefix(e.children, (i + 1) as nat, n as nat, cx, y, cw, g, heights@, next as int);
                    }
                    assert(layout_steps(e.children, e.children.len(), cx, y, cw, g, heights@, next as int) is None);
                }
                return None;
            },
        };
        let step: i64 = h as i64 + g as i64;
        let ny: i64 = cy as i64 + step;
        if step < i32::MIN as i64 || step > i32::MAX as i64 || ny < i32::MIN as i64 || ny
            > i32::MAX as i64 {
            proof {
                assert(layout_steps(e.children, (i + 1) as nat, cx, y, cw, g, heights@, next as int) is None);
                if layout_steps(e.children, n as nat, cx, y, cw, g, heights@, next as int) is Some {
                    lemma_layout_steps_prefix(e.children, (i + 1) as nat, n as nat, cx, y, cw, g, heights@, next as int);
                }
                assert(layout_steps(e.children, e.children.len(), cx, y, cw, g, heights@, next as int) is None);
            }
            return None;
        }
        proof {
            let c = layout_spec(e.children[i as int], cx, prev.height, cw, heights@, prev.next).unwrap();
            lemma_layout_next_grows(e.children[i as int], cx, prev.height, cw, heights@, prev.next);
            assert(k2 as int == c.next);
            assert(base + prev.moves + c.moves =~= base + (prev.moves + c.moves));
            assert(layout_steps(e.children, (i + 1) as nat, cx, y, cw, g, heights@, next as int)
                == Some(Laid { height: ny as i32, next: c.next, moves: prev.moves + c.moves }));
        }
        cy = ny as i32;
        k = k2;
        i = i + 1;
    }
    assert(e.children.len() == n);
    let total: i64 = cy as i64 - y as i64;
    let rest: i64 = total - g as i64;
    if total < i32::MIN as i64 || total > i32::MAX as i64 || rest < i32::MIN as i64 || rest
        > i32::MAX as i64 {
        return None;
    }
    if rest > 0 {
        Some((rest as i32, k))
    } else {
        Some((0, k))
    }
}

/// The moves that laying `root` out again at `(x, y)` in `width` makes,
/// for created controls of the given heights.
pub fn relayout(root: &Element, x: i32, y: i32, width: i32, heights: &[i32]) -> (r: Option<
    Vec<Placement>,
>)
    ensures
        r is Some <==> layout_spec(root@, x, y, width, heights@, 0) is Some,
        r matches Some(m) ==> m@ == layout_spec(root@, x, y, width, heights@, 0).unwrap().moves,
{
    let mut moves: Vec<Placement> = Vec::new();
    match layout_node(root, x, y, width, heights, 0, &mut moves) {
        Some(_) => {
            assert(seq![] + layout_spec(root@, x, y, width, heights@, 0).unwrap().moves
                =~= layout_spec(root@, x, y, width, heights@, 0).unwrap().moves);
            Some(moves)
        },
        None => None,
    }
}


/// Laying `root` out again in a window whose client area spans `left..right`.
pub open spec fn window_layout_spec(root: ElementView, left: i32, right: i32, heights: Seq<i32>) -> Option<
    Laid,
> {
    match content_width_of(left, right) {
        Some(w) => layout_spec(root, ROOT_MARGIN, ROOT_MARGIN, w, heights, 0),
        None => None,
    }
}

/// The moves of the created controls, of the given heights, when the
/// window's client area spans `left..right`.
pub fn relayout_window(root: &Element, left: i32, right: i32, heights: &[i32]) -> (r: Option<
    Vec<Placement>,
>)
    ensures
        r is Some <==> window_layout_spec(root@, left, right, heights@) is Some,
        r matches Some(m) ==> m@ == window_layout_spec(root@, left, right, heights@).unwrap().moves,
{
    match content_width(left, right) {
        Some(w) => relayout(root, ROOT_MARGIN, ROOT_MARGIN, w, heights),
        None => None,
    }
}

} // verus!
